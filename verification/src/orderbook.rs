//! Order book and matching engine: price levels in `BTreeMap`s, each level a
//! doubly-linked FIFO list of nodes in an arena, and an id index for cancels.
use std::collections::BTreeMap;
use vstd::prelude::*;
use crate::arena::{Arena, Node, INVALID};
use crate::fxmap::{fx_get, fx_insert, fx_len, fx_remove, fx_with_capacity, LocationMap};
use crate::model::{
    cancel_spec, crosses, highest, lemma_highest_is, lemma_lowest_is, lowest, opposite, spread_spec,
    submit, sweep, BookView, Resting,
};
use crate::types::{Fill, Order, OrderId, OrderType, Price, Qty, Side};

verus! {

broadcast use vstd::std_specs::btree::group_btree_axioms;

/// Head and tail of the FIFO list of one price level.
#[derive(Clone, Copy)]
pub struct PriceLevel {
    pub head: u32,
    pub tail: u32,
}

impl PriceLevel {
    pub fn new() -> (l: Self)
        ensures
            l.head == INVALID,
            l.tail == INVALID,
    {
        PriceLevel { head: INVALID, tail: INVALID }
    }

    pub fn is_empty(&self) -> (b: bool)
        ensures
            b == (self.head == INVALID),
    {
        self.head == INVALID
    }
}

pub struct OrderBook {
    /// Bid side – keys are prices, highest = best bid.
    bids: BTreeMap<Price, PriceLevel>,
    /// Ask side – keys are prices, lowest = best ask.
    asks: BTreeMap<Price, PriceLevel>,
    /// order_id -> (side, price, arena_idx).
    locations: LocationMap,
    /// Slab allocator for order nodes.
    arena: Arena,
    /// Cached best prices.
    cached_best_bid: Option<Price>,
    cached_best_ask: Option<Price>,
    /// The arena slots of each level, in list order.
    bid_queues: Ghost<Map<u64, Seq<u32>>>,
    ask_queues: Ghost<Map<u64, Seq<u32>>>,
    /// The level that holds each slot in use.
    owner: Ghost<Map<u32, (Side, u64)>>,
}

pub open spec fn prev_of(q: Seq<u32>, i: int) -> u32 {
    if i > 0 {
        q[i - 1]
    } else {
        INVALID
    }
}

pub open spec fn next_of(q: Seq<u32>, i: int) -> u32 {
    if i + 1 < q.len() {
        q[i + 1]
    } else {
        INVALID
    }
}

pub open spec fn level_ok(l: PriceLevel, q: Seq<u32>) -> bool {
    if q.len() > 0 {
        l.head == q[0] && l.tail == q.last()
    } else {
        l.head == INVALID && l.tail == INVALID
    }
}

/// `k` is at least as good as every key of `keys` for side `s`.
pub open spec fn is_best(s: Side, keys: Set<u64>, k: u64) -> bool {
    &&& keys.contains(k)
    &&& forall|q: u64|
        keys.contains(q) ==> match s {
            Side::Buy => q <= k,
            Side::Sell => k <= q,
        }
}

pub open spec fn best_of(s: Side, keys: Set<u64>) -> Option<u64> {
    match s {
        Side::Buy => highest(keys),
        Side::Sell => lowest(keys),
    }
}

pub proof fn lemma_best_of(s: Side, keys: Set<u64>, c: Option<u64>)
    requires
        match c {
            None => keys.is_empty(),
            Some(k) => is_best(s, keys, k),
        },
    ensures
        best_of(s, keys) == c,
{
    match c {
        None => {},
        Some(k) => {
            match s {
                Side::Buy => lemma_highest_is(keys, k),
                Side::Sell => lemma_lowest_is(keys, k),
            }
        },
    }
}

impl OrderBook {
    pub closed spec fn levels(&self, s: Side) -> Map<u64, PriceLevel> {
        match s {
            Side::Buy => self.bids@,
            Side::Sell => self.asks@,
        }
    }

    pub closed spec fn queues(&self, s: Side) -> Map<u64, Seq<u32>> {
        match s {
            Side::Buy => self.bid_queues@,
            Side::Sell => self.ask_queues@,
        }
    }

    pub closed spec fn cached(&self, s: Side) -> Option<u64> {
        match s {
            Side::Buy => self.cached_best_bid,
            Side::Sell => self.cached_best_ask,
        }
    }

    /// Slot `q[i]` holds a live node linked to its neighbours in `q`, and
    /// belongs to level `p` of side `s`.
    pub closed spec fn slot_ok(&self, s: Side, p: u64, q: Seq<u32>, i: int) -> bool {
        &&& self.arena.occupied(q[i])
        &&& self.arena.node(q[i]).prev == prev_of(q, i)
        &&& self.arena.node(q[i]).next == next_of(q, i)
        &&& self.arena.node(q[i]).qty > 0
        &&& self.owner@.contains_key(q[i])
        &&& self.owner@[q[i]] == (s, p)
    }

    /// The list of level `p` on side `s` matches its ghost queue; the queue
    /// may be empty only at the `hole`.
    pub closed spec fn queue_ok(&self, s: Side, p: u64, hole: Option<u64>) -> bool {
        let q = self.queues(s)[p];
        &&& q.no_duplicates()
        &&& level_ok(self.levels(s)[p], q)
        &&& (q.len() > 0 || hole == Some(p))
        &&& forall|i: int| 0 <= i < q.len() ==> #[trigger] self.slot_ok(s, p, q, i)
    }

    pub closed spec fn side_ok(&self, s: Side, hole: Option<u64>) -> bool {
        &&& self.levels(s).dom() == self.queues(s).dom()
        &&& forall|p: u64| #[trigger]
            self.queues(s).contains_key(p) ==> self.queue_ok(s, p, hole)
    }

    pub closed spec fn cache_ok(&self, s: Side) -> bool {
        match self.cached(s) {
            None => self.levels(s).dom().is_empty(),
            Some(k) => is_best(s, self.levels(s).dom(), k),
        }
    }

    pub closed spec fn locs_ok(&self) -> bool {
        &&& self.locations@.dom().finite()
        &&& forall|id: u64| #[trigger]
            self.locations@.contains_key(id) ==> {
                let (s, p, idx) = self.locations@[id];
                &&& self.queues(s).contains_key(p)
                &&& self.queues(s)[p].contains(idx)
                &&& self.arena.node(idx).id == id
            }
    }

    /// The invariant, with one level (`hole` on side `hs`) allowed to be empty.
    #[verifier::opaque]
    pub closed spec fn inv(&self, hs: Side, hole: Option<u64>) -> bool {
        &&& self.arena.wf()
        &&& self.side_ok(hs, hole)
        &&& self.side_ok(opposite(hs), None)
        &&& self.locs_ok()
        &&& self.cache_ok(Side::Buy)
        &&& self.cache_ok(Side::Sell)
    }

    pub closed spec fn wf(&self) -> bool {
        self.inv(Side::Buy, None)
    }

    /// Number of arena slots holding a resting order.
    pub closed spec fn nodes_in_use(&self) -> nat {
        self.arena.num_in_use()
    }

    pub closed spec fn resting(&self, s: Side, p: u64, idx: u32) -> Resting {
        let n = self.arena.node(idx);
        Resting {
            id: n.id,
            qty: n.qty,
            indexed: self.locations@.contains_key(n.id) && self.locations@[n.id] == (s, p, idx),
        }
    }

    #[verifier::opaque]
    pub closed spec fn side_view(&self, s: Side) -> Map<u64, Seq<Resting>> {
        Map::new(
            |p: u64| self.queues(s).contains_key(p),
            |p: u64| self.queues(s)[p].map_values(|idx: u32| self.resting(s, p, idx)),
        )
    }
}

impl View for OrderBook {
    type V = BookView;

    closed spec fn view(&self) -> BookView {
        BookView { bids: self.side_view(Side::Buy), asks: self.side_view(Side::Sell) }
    }
}

impl OrderBook {
    proof fn lemma_wf_inv(&self)
        ensures
            self.wf() <==> self.inv(Side::Sell, None),
            self.wf() <==> self.inv(Side::Buy, None),
            self.wf() <==> {
                &&& self.arena.wf()
                &&& self.side_ok(Side::Buy, None)
                &&& self.side_ok(Side::Sell, None)
                &&& self.locs_ok()
                &&& self.cache_ok(Side::Buy)
                &&& self.cache_ok(Side::Sell)
            },
    {
        reveal(OrderBook::inv);
    }

    proof fn lemma_inv_parts(&self, hs: Side, hole: Option<u64>)
        ensures
            self.inv(hs, hole) <==> {
                &&& self.arena.wf()
                &&& self.side_ok(hs, hole)
                &&& self.side_ok(opposite(hs), None)
                &&& self.locs_ok()
                &&& self.cache_ok(Side::Buy)
                &&& self.cache_ok(Side::Sell)
            },
    {
        reveal(OrderBook::inv);
    }

    /// The well-formed concrete book has a well-formed view.
    proof fn lemma_view_wf(&self)
        requires
            self.wf(),
        ensures
            self@.wf(),
    {
        reveal(OrderBook::side_view);
        let v = self@;
        self.lemma_wf_inv();
        assert forall|s: Side| #[trigger] self.levels(s).dom().finite() by {}
        assert(self.bid_queues@.dom() == self.bids@.dom());
        assert(self.ask_queues@.dom() == self.asks@.dom());
        assert(v.bids.dom() =~= self.bid_queues@.dom());
        assert(v.asks.dom() =~= self.ask_queues@.dom());
        assert forall|s: Side, p: u64| #[trigger] v.side(s).contains_key(p) implies v.side(s)[p].len()
            > 0 by {
            assert(self.side_ok(s, None));
            assert(self.queue_ok(s, p, None));
        }
        assert forall|s: Side, p: u64, i: int|
            v.side(s).contains_key(p) && 0 <= i < v.side(s)[p].len() implies #[trigger] v.side(s)[p][i].qty
            > 0 by {
            assert(self.side_ok(s, None));
            assert(self.queue_ok(s, p, None));
            assert(self.slot_ok(s, p, self.queues(s)[p], i));
        }
        assert forall|s1: Side, p1: u64, i1: int, s2: Side, p2: u64, i2: int, id: u64|
            #[trigger] v.indexed_at(s1, p1, i1, id) && #[trigger] v.indexed_at(
                s2,
                p2,
                i2,
                id,
            ) implies s1 == s2 && p1 == p2 && i1 == i2 by {
            let q = self.queues(s1)[p1];
            assert(self.side_ok(s1, None));
            assert(self.queue_ok(s1, p1, None));
            assert(v.side(s1)[p1][i1] == self.resting(s1, p1, q[i1]));
            assert(v.side(s2)[p2][i2] == self.resting(s2, p2, self.queues(s2)[p2][i2]));
            assert(q[i1] == self.queues(s2)[p2][i2]);
        }
    }

    pub fn new() -> (b: Self)
        ensures
            b.wf(),
            b@ == BookView::empty(),
            b.nodes_in_use() == 0,
    {
        let b = OrderBook {
            bids: BTreeMap::new(),
            asks: BTreeMap::new(),
            locations: LocationMap::default(),
            arena: Arena::new(),
            cached_best_bid: None,
            cached_best_ask: None,
            bid_queues: Ghost(Map::empty()),
            ask_queues: Ghost(Map::empty()),
            owner: Ghost(Map::empty()),
        };
        proof {
            assert(b.bids@.dom() =~= b.bid_queues@.dom());
            assert(b.asks@.dom() =~= b.ask_queues@.dom());
            reveal(OrderBook::side_view);
            assert(b@.bids =~= Map::empty());
            assert(b@.asks =~= Map::empty());
            b.lemma_wf_inv();
        }
        b
    }

    pub fn with_capacity(cap: usize) -> (b: Self)
        ensures
            b.wf(),
            b@ == BookView::empty(),
            b.nodes_in_use() == 0,
    {
        let b = OrderBook {
            bids: BTreeMap::new(),
            asks: BTreeMap::new(),
            locations: fx_with_capacity(cap),
            arena: Arena::with_capacity(cap),
            cached_best_bid: None,
            cached_best_ask: None,
            bid_queues: Ghost(Map::empty()),
            ask_queues: Ghost(Map::empty()),
            owner: Ghost(Map::empty()),
        };
        proof {
            assert(b.locations@ =~= Map::empty());
            assert(b.bids@.dom() =~= b.bid_queues@.dom());
            assert(b.asks@.dom() =~= b.ask_queues@.dom());
            reveal(OrderBook::side_view);
            assert(b@.bids =~= Map::empty());
            assert(b@.asks =~= Map::empty());
            b.lemma_wf_inv();
        }
        b
    }
}


/// Quantity of a prefix of a queue never exceeds that of the whole queue.
proof fn lemma_queue_qty_prefix(q: Seq<Resting>, i: int)
    requires
        0 <= i <= q.len(),
    ensures
        crate::model::queue_qty(q.take(i)) <= crate::model::queue_qty(q),
    decreases q.len(),
{
    if i < q.len() {
        assert(q.drop_last().take(i) =~= q.take(i));
        lemma_queue_qty_prefix(q.drop_last(), i);
    } else {
        assert(q.take(i) =~= q);
    }
}

impl OrderBook {
    proof fn lemma_view_dom(&self, s: Side)
        requires
            self.side_ok(s, None) || self.side_ok(s, Some(0)) || exists|h: u64| self.side_ok(s, Some(h)),
        ensures
            self@.side(s).dom() == self.levels(s).dom(),
            self@.side(s).dom() == self.queues(s).dom(),
            forall|p: u64| #[trigger] self@.side(s).contains_key(p) ==> self@.side(s)[p].len() == self.queues(s)[p].len(),
            forall|p: u64, i: int| self@.side(s).contains_key(p) && 0 <= i < self.queues(s)[p].len()
                ==> #[trigger] self@.side(s)[p][i] == self.resting(s, p, self.queues(s)[p][i]),
    {
        reveal(OrderBook::side_view);
        assert(self@.side(s).dom() =~= self.queues(s).dom());
    }

    /// The cached best price of a side is the best price of the view.
    proof fn lemma_cached_best(&self, s: Side)
        requires
            self.wf(),
        ensures
            self.cached(s) == self@.best(s),
    {
        self.lemma_wf_inv();
        self.lemma_view_dom(s);
        lemma_best_of(s, self.levels(s).dom(), self.cached(s));
    }

    /// The id index holds exactly the ids of the indexed resting orders.
    proof fn lemma_indexed_ids(&self)
        requires
            self.wf(),
        ensures
            self.locations@.dom() == self@.indexed_ids(),
    {
        reveal(OrderBook::side_view);
        let v = self@;
        assert forall|id: u64| self.locations@.contains_key(id) implies v.has_indexed(id) by {
            let (s, p, idx) = self.locations@[id];
            self.lemma_wf_inv();
            assert(self.side_ok(s, None));
            assert(self.queue_ok(s, p, None));
            let q = self.queues(s)[p];
            let i = choose|i: int| 0 <= i < q.len() && q[i] == idx;
            assert(v.side(s)[p][i] == self.resting(s, p, idx));
            assert(v.indexed_at(s, p, i, id));
        }
        assert forall|id: u64| v.has_indexed(id) implies self.locations@.contains_key(id) by {
            let (s, p, i) = choose|s: Side, p: u64, i: int| #[trigger] v.indexed_at(s, p, i, id);
            let q = self.queues(s)[p];
            assert(v.side(s)[p][i] == self.resting(s, p, q[i]));
        }
        assert(self.locations@.dom() =~= v.indexed_ids());
    }

    /// Best bid price, or `None` if the bid side is empty.
    pub fn best_bid(&self) -> (r: Option<Price>)
        requires
            self.wf(),
        ensures
            r == self@.best(Side::Buy),
    {
        proof {
            self.lemma_cached_best(Side::Buy);
        }
        self.cached_best_bid
    }

    /// Best ask price, or `None` if the ask side is empty.
    pub fn best_ask(&self) -> (r: Option<Price>)
        requires
            self.wf(),
        ensures
            r == self@.best(Side::Sell),
    {
        proof {
            self.lemma_cached_best(Side::Sell);
        }
        self.cached_best_ask
    }

    /// Spread = best_ask - best_bid. `None` if either side is empty or the
    /// best bid is above the best ask.
    pub fn spread(&self) -> (r: Option<u64>)
        requires
            self.wf(),
        ensures
            r == spread_spec(self@),
    {
        match (self.best_ask(), self.best_bid()) {
            (Some(a), Some(b)) => {
                if a >= b {
                    Some(a - b)
                } else {
                    None
                }
            },
            _ => None,
        }
    }

    /// Number of resting orders that can be found by id.
    pub fn len(&self) -> (r: usize)
        requires
            self.wf(),
        ensures
            r == self@.indexed_ids().len(),
    {
        proof {
            self.lemma_indexed_ids();
        }
        fx_len(&self.locations)
    }

    /// Whether no resting order can be found by id.
    pub fn is_empty(&self) -> (r: bool)
        requires
            self.wf(),
        ensures
            r == self@.indexed_ids().is_empty(),
    {
        proof {
            self.lemma_indexed_ids();
        }
        self.locations.is_empty()
    }

    /// Total resting quantity at a given price on a given side.
    pub fn depth_at(&self, side: Side, price: Price) -> (r: Qty)
        requires
            self.wf(),
            self@.level_qty(side, price) <= u64::MAX,
        ensures
            r == self@.level_qty(side, price),
    {
        let book = match side {
            Side::Buy => &self.bids,
            Side::Sell => &self.asks,
        };
        proof {
            self.lemma_wf_inv();
            self.lemma_view_dom(side);
            assert(self.side_ok(side, None));
        }
        let level = match book.get(&price) {
            Some(l) => l,
            None => return 0,
        };
        let ghost q = self.queues(side)[price];
        let ghost vq = self@.side(side)[price];
        proof {
            reveal(OrderBook::side_view);
            assert(self.queue_ok(side, price, None));
            assert(vq == q.map_values(|idx: u32| self.resting(side, price, idx)));
            assert(vq.take(0) =~= Seq::<Resting>::empty());
        }
        let mut total: Qty = 0;
        let mut cur = level.head;
        let ghost mut i: int = 0;
        while cur != INVALID
            invariant
                self.wf(),
                self.queue_ok(side, price, None),
                q == self.queues(side)[price],
                vq == q.map_values(|idx: u32| self.resting(side, price, idx)),
                vq == self@.side(side)[price],
                crate::model::queue_qty(vq) <= u64::MAX,
                0 <= i <= q.len(),
                cur == (if i < q.len() {
                    q[i]
                } else {
                    INVALID
                }),
                total == crate::model::queue_qty(vq.take(i)),
            decreases q.len() - i,
        {
            proof {
                if i >= q.len() {
                    assert(cur == INVALID);
                }
                assert(self.slot_ok(side, price, q, i));
                assert(vq.take(i + 1).drop_last() =~= vq.take(i));
                lemma_queue_qty_prefix(vq, i + 1);
            }
            let node = self.arena.get(cur);
            total += node.qty;
            cur = node.next;
            proof {
                if i + 1 < q.len() {
                    self.lemma_wf_inv();
                    assert(self.slot_ok(side, price, q, i + 1));
                    self.arena.lemma_valid_index(q[i + 1]);
                }
                i = i + 1;
            }
        }
        proof {
            self.lemma_wf_inv();
            if i < q.len() {
                assert(self.slot_ok(side, price, q, i));
                self.arena.lemma_valid_index(q[i]);
            }
            assert(vq.take(i) =~= vq);
        }
        total
    }
}


/// Clears the index mark of orders with id `x` in a single resting entry.
pub open spec fn clear_one(r: Resting, x: u64) -> Resting {
    Resting { id: r.id, qty: r.qty, indexed: r.indexed && r.id != x }
}

impl OrderBook {
    /// A change confined to level `cp` of side `cs` leaves the other levels
    /// of side `s` well formed.
    proof fn lemma_side_frame(
        b1: &OrderBook,
        b2: &OrderBook,
        s: Side,
        h1: Option<u64>,
        h2: Option<u64>,
        cs: Side,
        cp: u64,
    )
        requires
            b1.side_ok(s, h1),
            b2.levels(s).dom() == b2.queues(s).dom(),
            forall|p: u64|
                #[trigger] b2.queues(s).contains_key(p) && (s != cs || p != cp) ==> {
                    &&& b1.queues(s).contains_key(p)
                    &&& b2.queues(s)[p] == b1.queues(s)[p]
                    &&& b2.levels(s)[p] == b1.levels(s)[p]
                    &&& (b1.queues(s)[p].len() > 0 || h2 == Some(p))
                },
            s == cs && b2.queues(s).contains_key(cp) ==> b2.queue_ok(s, cp, h2),
            forall|idx: u32|
                #[trigger] b1.arena.occupied(idx) && b1.owner@.contains_key(idx) && b1.owner@[idx]
                    != (cs, cp) ==> {
                    &&& b2.arena.occupied(idx)
                    &&& b2.arena.node(idx) == b1.arena.node(idx)
                    &&& b2.owner@.contains_key(idx)
                    &&& b2.owner@[idx] == b1.owner@[idx]
                },
        ensures
            b2.side_ok(s, h2),
    {
        assert forall|p: u64| #[trigger] b2.queues(s).contains_key(p) implies b2.queue_ok(s, p, h2) by {
            if s != cs || p != cp {
                assert(b1.queue_ok(s, p, h1));
                let q = b1.queues(s)[p];
                assert forall|i: int| 0 <= i < q.len() implies #[trigger] b2.slot_ok(s, p, q, i) by {
                    assert(b1.slot_ok(s, p, q, i));
                }
            }
        }
    }

    /// How a change confined to level `cp` of side `cs` shows in the view of
    /// the other levels of side `s`: unchanged, or with the marks of id `x`
    /// cleared.
    proof fn lemma_view_frame(
        b1: &OrderBook,
        b2: &OrderBook,
        s: Side,
        h1: Option<u64>,
        cs: Side,
        cp: u64,
        x: Option<u64>,
        keep: bool,
    )
        requires
            b1.side_ok(s, h1),
            forall|p: u64|
                (s != cs || p != cp) ==> (#[trigger] b2.queues(s).contains_key(p) <==> b1.queues(
                    s,
                ).contains_key(p)),
            forall|p: u64|
                #[trigger] b2.queues(s).contains_key(p) && (s != cs || p != cp) ==> b2.queues(s)[p]
                    == b1.queues(s)[p],
            forall|idx: u32|
                #[trigger] b1.arena.occupied(idx) && b1.owner@.contains_key(idx) && b1.owner@[idx]
                    != (cs, cp) ==> b2.arena.node(idx) == b1.arena.node(idx),
            x is None ==> b2.locations@ == b1.locations@,
            x is Some ==> {
                let xv = x->0;
                &&& forall|id: u64|
                    id != xv ==> (#[trigger] b2.locations@.contains_key(id) == b1.locations@.contains_key(
                        id,
                    ) && (b1.locations@.contains_key(id) ==> b2.locations@[id]
                        == b1.locations@[id]))
                &&& b2.locations@.contains_key(xv) ==> b2.locations@[xv].0 == cs
                    && b2.locations@[xv].1 == cp
                &&& keep ==> (b1.locations@.contains_key(xv) ==> b1.locations@[xv].0 == cs
                    && b1.locations@[xv].1 == cp)
            },
        ensures
            forall|p: u64|
                (s != cs || p != cp) ==> (#[trigger] b2.side_view(s).contains_key(p)
                    <==> b1.side_view(s).contains_key(p)),
            forall|p: u64|
                #[trigger] b2.side_view(s).contains_key(p) && (s != cs || p != cp) ==> b2.side_view(
                    s,
                )[p] == (if x is None || keep {
                    b1.side_view(s)[p]
                } else {
                    crate::model::clear_mark(b1.side_view(s)[p], x->0)
                }),
    {
        reveal(OrderBook::side_view);
        assert forall|p: u64|
            #[trigger] b2.side_view(s).contains_key(p) && (s != cs || p != cp) implies b2.side_view(
            s,
        )[p] == (if x is None || keep {
            b1.side_view(s)[p]
        } else {
            crate::model::clear_mark(b1.side_view(s)[p], x->0)
        }) by {
            assert(b1.queue_ok(s, p, h1));
            let q = b1.queues(s)[p];
            let v1 = b1.side_view(s)[p];
            let v2 = b2.side_view(s)[p];
            assert forall|i: int| 0 <= i < q.len() implies #[trigger] v2[i] == (if x is None || keep {
                v1[i]
            } else {
                clear_one(v1[i], x->0)
            }) by {
                assert(b1.slot_ok(s, p, q, i));
                let idx = q[i];
                assert(b2.queues(s)[p] == q);
                assert(b2.arena.node(idx) == b1.arena.node(idx));
                assert(v1[i] == b1.resting(s, p, idx));
                assert(v2[i] == b2.resting(s, p, idx));
                let n = b1.arena.node(idx);
                if x is Some {
                    let xv = x->0;
                    if n.id != xv {
                        assert(b2.locations@.contains_key(n.id) == b1.locations@.contains_key(n.id));
                    } else {
                        assert(!b2.resting(s, p, idx).indexed);
                        if keep {
                            assert(!b1.resting(s, p, idx).indexed);
                        }
                    }
                }
            }
            if x is None || keep {
                assert(v2 =~= v1);
            } else {
                assert(v2 =~= crate::model::clear_mark(v1, x->0));
            }
        }
    }
}


impl OrderBook {
    fn level_get(&self, side: Side, price: Price) -> (r: Option<PriceLevel>)
        ensures
            r == (if self.levels(side).contains_key(price) {
                Some(self.levels(side)[price])
            } else {
                None
            }),
    {
        let r = match side {
            Side::Buy => self.bids.get(&price),
            Side::Sell => self.asks.get(&price),
        };
        match r {
            Some(l) => Some(*l),
            None => None,
        }
    }

    fn level_set(&mut self, side: Side, price: Price, level: PriceLevel)
        ensures
            final(self).levels(side) == old(self).levels(side).insert(price, level),
            final(self).levels(opposite(side)) == old(self).levels(opposite(side)),
            final(self).queues(Side::Buy) == old(self).queues(Side::Buy),
            final(self).queues(Side::Sell) == old(self).queues(Side::Sell),
            final(self).arena == old(self).arena,
            final(self).owner == old(self).owner,
            final(self).locations@ == old(self).locations@,
            final(self).cached_best_bid == old(self).cached_best_bid,
            final(self).cached_best_ask == old(self).cached_best_ask,
    {
        match side {
            Side::Buy => {
                self.bids.insert(price, level);
            },
            Side::Sell => {
                self.asks.insert(price, level);
            },
        }
    }

    fn level_remove(&mut self, side: Side, price: Price)
        ensures
            final(self).levels(side) == old(self).levels(side).remove(price),
            final(self).levels(opposite(side)) == old(self).levels(opposite(side)),
            final(self).queues(Side::Buy) == old(self).queues(Side::Buy),
            final(self).queues(Side::Sell) == old(self).queues(Side::Sell),
            final(self).arena == old(self).arena,
            final(self).owner == old(self).owner,
            final(self).locations@ == old(self).locations@,
            final(self).cached_best_bid == old(self).cached_best_bid,
            final(self).cached_best_ask == old(self).cached_best_ask,
    {
        match side {
            Side::Buy => {
                self.bids.remove(&price);
            },
            Side::Sell => {
                self.asks.remove(&price);
            },
        }
    }

    /// Rests `qty` lots of order `id` at the back of level `price` on `side`.
    fn place(&mut self, id: OrderId, side: Side, price: Price, qty: Qty)
        requires
            old(self).wf(),
            qty > 0,
            old(self).nodes_in_use() < INVALID,
        ensures
            final(self).wf(),
            final(self)@ == old(self)@.place(side, price, id, qty),
            final(self).nodes_in_use() == old(self).nodes_in_use() + 1,
    {
        proof {
            self.lemma_wf_inv();
            assert(self.side_ok(side, None));
        }
        let ghost q0 = if self.queues(side).contains_key(price) {
            self.queues(side)[price]
        } else {
            Seq::<u32>::empty()
        };
        proof {
            if self.queues(side).contains_key(price) {
                assert(self.queue_ok(side, price, None));
                assert(self.slot_ok(side, price, q0, q0.len() - 1));
                self.arena.lemma_valid_index(q0.last());
            }
        }
        let idx = self.arena.alloc_node(Node { id, qty, prev: INVALID, next: INVALID });
        let ghost a1 = self.arena;
        let mut level = match self.level_get(side, price) {
            Some(l) => l,
            None => PriceLevel::new(),
        };
        let old_tail = level.tail;
        if old_tail != INVALID {
            proof {
                assert(old(self).arena.occupied(old_tail));
            }
            self.arena.get_mut(old_tail).next = idx;
            let ghost a2 = self.arena;
            self.arena.get_mut(idx).prev = old_tail;
            proof {
                assert(idx != old_tail);
                assert(a2.occupied(idx));
                assert(a2.node(idx) == a1.node(idx));
                assert forall|j: u32| j != idx && j != old_tail implies #[trigger] self.arena.occupied(j)
                    == a1.occupied(j) && (a1.occupied(j) ==> self.arena.node(j) == a1.node(j)) by {
                    assert(a2.occupied(j) == a1.occupied(j));
                    assert(self.arena.occupied(j) == a2.occupied(j));
                }
                assert(self.arena.occupied(old_tail) && self.arena.occupied(idx));
                assert(a1.occupied(old_tail));
                assert(a1.node(old_tail) == old(self).arena.node(old_tail));
                assert(self.arena.node(old_tail) == (Node { next: idx, ..a1.node(old_tail) }));
                assert(self.arena.node(idx) == (Node { id, qty, prev: old_tail, next: INVALID }));
            }
        } else {
            level.head = idx;
        }
        level.tail = idx;
        self.level_set(side, price, level);
        match side {
            Side::Buy => {
                match self.cached_best_bid {
                    None => {
                        self.cached_best_bid = Some(price);
                    },
                    Some(b) => {
                        if price > b {
                            self.cached_best_bid = Some(price);
                        }
                    },
                }
            },
            Side::Sell => {
                match self.cached_best_ask {
                    None => {
                        self.cached_best_ask = Some(price);
                    },
                    Some(a) => {
                        if price < a {
                            self.cached_best_ask = Some(price);
                        }
                    },
                }
            },
        }
        fx_insert(&mut self.locations, id, (side, price, idx));
        let ghost q1 = q0.push(idx);
        proof {
            match side {
                Side::Buy => {
                    self.bid_queues@ = self.bid_queues@.insert(price, q1);
                },
                Side::Sell => {
                    self.ask_queues@ = self.ask_queues@.insert(price, q1);
                },
            }
            self.owner@ = self.owner@.insert(idx, (side, price));
            let b0 = *old(self);
            let b2 = *self;
            // the arena changed only at `idx` and `old_tail`
            assert forall|j: u32| #[trigger] b0.arena.occupied(j) && j != old_tail implies b2.arena.occupied(j)
                && b2.arena.node(j) == b0.arena.node(j) && j != idx by {
                assert(a1.occupied(j) == b0.arena.occupied(j));
                if old_tail != INVALID {
                    assert(b2.arena.occupied(j) == a1.occupied(j));
                }
            }
            // the new level
            assert(b2.queues(side)[price] == q1);
            assert(level_ok(b2.levels(side)[price], q1));
            assert(b2.queue_ok(side, price, None)) by {
                assert(q1.no_duplicates()) by {
                    assert forall|k: int| 0 <= k < q0.len() implies q0[k] != idx by {
                        assert(b0.slot_ok(side, price, q0, k));
                    }
                }
                if q0.len() > 0 {
                    assert(old_tail == q0.last());
                    assert(b2.arena.node(idx) == (Node { id, qty, prev: old_tail, next: INVALID }));
                } else {
                    assert(old_tail == INVALID);
                    assert(b2.arena == a1);
                    assert(b2.arena.node(idx) == (Node { id, qty, prev: INVALID, next: INVALID }));
                }
                assert forall|i: int| 0 <= i < q1.len() implies #[trigger] b2.slot_ok(side, price, q1, i) by {
                    if i < q0.len() {
                        assert(b0.slot_ok(side, price, q0, i));
                        assert(q1[i] == q0[i]);
                        assert(q0[i] != idx);
                        if i + 1 < q0.len() {
                            assert(q0[i] != q0[q0.len() - 1]);
                            assert(q0[i] != old_tail);
                            assert(next_of(q1, i) == next_of(q0, i));
                        } else {
                            assert(q0[i] == old_tail);
                            assert(b2.arena.node(old_tail) == (Node { next: idx, ..b0.arena.node(old_tail) }));
                        }
                        assert(prev_of(q1, i) == prev_of(q0, i));
                    } else {
                        assert(q1[i] == idx);
                    }
                }
            }
            assert forall|j: u32|
                #[trigger] b0.arena.occupied(j) && b0.owner@.contains_key(j) && b0.owner@[j] != (side, price) implies {
                    &&& b2.arena.occupied(j)
                    &&& b2.arena.node(j) == b0.arena.node(j)
                    &&& b2.owner@.contains_key(j)
                    &&& b2.owner@[j] == b0.owner@[j]
                } by {
                b0.arena.lemma_valid_index(j);
                if j == old_tail {
                    assert(q0.len() > 0);
                    assert(b0.queue_ok(side, price, None));
                    assert(b0.slot_ok(side, price, q0, q0.len() - 1));
                }
            }
            Self::lemma_side_frame(&b0, &b2, side, None, None, side, price);
            Self::lemma_side_frame(&b0, &b2, opposite(side), None, None, side, price);
            // the index
            assert forall|k: u64| #[trigger] b2.locations@.contains_key(k) implies {
                let (s, p, x) = b2.locations@[k];
                &&& b2.queues(s).contains_key(p)
                &&& b2.queues(s)[p].contains(x)
                &&& b2.arena.node(x).id == k
            } by {
                if k != id {
                    let (s, p, x) = b0.locations@[k];
                    assert(b0.side_ok(s, None));
                    assert(b0.queue_ok(s, p, None));
                    let j = choose|j: int| 0 <= j < b0.queues(s)[p].len() && b0.queues(s)[p][j] == x;
                    assert(b0.slot_ok(s, p, b0.queues(s)[p], j));
                    if s == side && p == price {
                        assert(q1[j] == x);
                    }
                } else {
                    assert(q1[q1.len() - 1] == idx);
                }
            }
            // the cached best prices
            assert(b2.cache_ok(side)) by {
                assert(b2.levels(side).dom() == b0.levels(side).dom().insert(price));
            }
            assert(b2.cache_ok(opposite(side)));
            assert(b2.cache_ok(Side::Buy) && b2.cache_ok(Side::Sell)) by {
                match side {
                    Side::Buy => {},
                    Side::Sell => {},
                }
            }
            b2.lemma_inv_parts(side, None);
            assert(b2.inv(side, None));
            match side {
                Side::Buy => {},
                Side::Sell => {
                    b2.lemma_wf_inv();
                },
            }
            // the view
            reveal(OrderBook::side_view);
            let e = b0@.place(side, price, id, qty);
            Self::lemma_view_frame(&b0, &b2, side, None, side, price, Some(id), false);
            Self::lemma_view_frame(&b0, &b2, opposite(side), None, side, price, Some(id), false);
            b0.lemma_view_dom(side);
            b0.lemma_view_dom(opposite(side));
            b2.lemma_view_dom(side);
            b2.lemma_view_dom(opposite(side));
            assert(b2.side_view(side).contains_key(price));
            assert(b2.side_view(side)[price] =~= e.side(side)[price]) by {
                let v2 = b2.side_view(side)[price];
                assert forall|i: int| 0 <= i < q1.len() implies v2[i] == #[trigger] e.side(side)[price][i] by {
                    if i < q0.len() {
                        assert(b0.slot_ok(side, price, q0, i));
                        assert(b0.side_view(side)[price][i] == b0.resting(side, price, q0[i]));
                    }
                }
            }
            assert(b2.side_view(side) =~= e.side(side));
            assert(b2.side_view(opposite(side)) =~= e.side(opposite(side)));
            match side {
                Side::Buy => {
                    assert(b2@ == e);
                },
                Side::Sell => {
                    assert(b2@ == e);
                },
            }
        }
    }
}


/// `BTreeMap::first_key_value`, keeping the key.
/// Trusted to return the smallest key, or `None` when the map is empty.
#[verifier::external_body]
fn first_key(m: &BTreeMap<Price, PriceLevel>) -> (r: Option<Price>)
    ensures
        match r {
            None => m@.dom().is_empty(),
            Some(k) => is_best(Side::Sell, m@.dom(), k),
        },
{
    m.first_key_value().map(|(k, _)| *k)
}

/// `BTreeMap::last_key_value`, keeping the key.
/// Trusted to return the largest key, or `None` when the map is empty.
#[verifier::external_body]
fn last_key(m: &BTreeMap<Price, PriceLevel>) -> (r: Option<Price>)
    ensures
        match r {
            None => m@.dom().is_empty(),
            Some(k) => is_best(Side::Buy, m@.dom(), k),
        },
{
    m.last_key_value().map(|(k, _)| *k)
}


impl OrderBook {
    /// Cancel a resting order in O(1). Returns `true` if an order with this
    /// id could be found by the index (and was removed).
    pub fn cancel(&mut self, order_id: OrderId) -> (r: bool)
        requires
            old(self).wf(),
        ensures
            final(self).wf(),
            (final(self)@, r) == cancel_spec(old(self)@, order_id),
            final(self).nodes_in_use() + (if r {
                1int
            } else {
                0int
            }) == old(self).nodes_in_use(),
    {
        proof {
            self.lemma_indexed_ids();
            self.lemma_view_wf();
            self.lemma_wf_inv();
        }
        let (side, price, idx) = match fx_get(&self.locations, order_id) {
            Some(loc) => loc,
            None => return false,
        };
        fx_remove(&mut self.locations, order_id);
        let ghost q = old(self).queues(side)[price];
        let ghost i = choose|i: int| 0 <= i < q.len() && q[i] == idx;
        proof {
            assert(old(self).side_ok(side, None));
            assert(old(self).queue_ok(side, price, None));
            assert(old(self).slot_ok(side, price, q, i));
            if i > 0 {
                assert(old(self).slot_ok(side, price, q, i - 1));
            }
            if i + 1 < q.len() {
                assert(old(self).slot_ok(side, price, q, i + 1));
            }
        }
        let (prev, next) = {
            let node = self.arena.get(idx);
            (node.prev, node.next)
        };
        let ghost a0 = self.arena;
        // Unlink from doubly-linked list
        if prev != INVALID {
            self.arena.get_mut(prev).next = next;
        }
        let ghost a1 = self.arena;
        if next != INVALID {
            self.arena.get_mut(next).prev = prev;
        }
        let ghost a2 = self.arena;
        proof {
            if i > 0 {
                assert(a0.occupied(q[i - 1]));
                assert(q[i - 1] != INVALID) by {
                    a0.lemma_valid_index(q[i - 1]);
                }
            }
            if i + 1 < q.len() {
                assert(a0.occupied(q[i + 1]));
                assert(q[i + 1] != INVALID) by {
                    a0.lemma_valid_index(q[i + 1]);
                }
                assert(a1.occupied(q[i + 1]));
            }
        }
        // Update price level head/tail
        let mut remove_level = false;
        let ghost mut lv1 = PriceLevel { head: 0, tail: 0 };
        proof {
            assert(self.levels(side).contains_key(price));
        }
        let ghost lvs0 = self.levels(side);
        match self.level_get(side, price) {
            Some(level) => {
                let mut level = level;
                if level.head == idx {
                    level.head = next;
                }
                if level.tail == idx {
                    level.tail = prev;
                }
                remove_level = level.is_empty();
                proof {
                    lv1 = level;
                }
                self.level_set(side, price, level);
            },
            None => {},
        }
        let ghost nq = q.remove(i);
        proof {
            match side {
                Side::Buy => {
                    self.bid_queues@ = self.bid_queues@.insert(price, nq);
                },
                Side::Sell => {
                    self.ask_queues@ = self.ask_queues@.insert(price, nq);
                },
            }
            self.owner@ = self.owner@.remove(idx);
        }
        if remove_level {
            self.level_remove(side, price);
            proof {
                match side {
                    Side::Buy => {
                        self.bid_queues@ = self.bid_queues@.remove(price);
                    },
                    Side::Sell => {
                        self.ask_queues@ = self.ask_queues@.remove(price);
                    },
                }
            }
            match side {
                Side::Buy => {
                    if self.cached_best_bid == Some(price) {
                        self.cached_best_bid = last_key(&self.bids);
                    }
                },
                Side::Sell => {
                    if self.cached_best_ask == Some(price) {
                        self.cached_best_ask = first_key(&self.asks);
                    }
                },
            }
        }
        let ghost a3 = self.arena;
        self.arena.dealloc(idx);
        proof {
            let b0 = *old(self);
            let pv = prev_of(q, i);
            let nx = next_of(q, i);
            assert(prev == pv && next == nx);
            assert(a3 == a2);
            assert forall|j: u32| j != idx && j != pv && j != nx implies #[trigger] self.arena.occupied(j)
                == b0.arena.occupied(j) && (b0.arena.occupied(j) ==> self.arena.node(j) == b0.arena.node(j)) by {
                assert(a1.occupied(j) == a0.occupied(j));
                assert(a2.occupied(j) == a1.occupied(j));
                assert(self.arena.occupied(j) == a2.occupied(j));
            }
            if i > 0 {
                assert(pv != idx && pv != nx);
                assert(a2.occupied(pv));
                assert(self.arena.occupied(pv));
            }
            if i + 1 < q.len() {
                assert(nx != idx);
                assert(self.arena.occupied(nx));
            }
            if remove_level {
                assert(self.queues(side) =~= b0.queues(side).remove(price));
                assert(self.levels(side) =~= lvs0.remove(price));
            } else {
                assert(self.queues(side) =~= b0.queues(side).insert(price, q.remove(i)));
            }
            Self::lemma_cancel_post(&b0, self, order_id, side, price, idx, i, remove_level, lv1, pv, nx);
        }
        true
    }

}


impl OrderBook {
    /// What `cancel` leaves behind, given what each of its steps did.
    #[verifier::rlimit(40)]
    proof fn lemma_cancel_post(
        b0: &OrderBook,
        b2: &OrderBook,
        id: u64,
        side: Side,
        price: u64,
        idx: u32,
        i: int,
        removed: bool,
        lv1: PriceLevel,
        pv: u32,
        nx: u32,
    )
        requires
            b0.wf(),
            b0.locations@.contains_key(id),
            b0.locations@[id] == (side, price, idx),
            b0.queues(side).contains_key(price),
            0 <= i < b0.queues(side)[price].len(),
            b0.queues(side)[price][i] == idx,
            b2.arena.wf(),
            b2.nodes_in_use() + 1 == b0.nodes_in_use(),
            pv == prev_of(b0.queues(side)[price], i),
            nx == next_of(b0.queues(side)[price], i),
            forall|j: u32|
                #![trigger b2.arena.occupied(j)]
                #![trigger b2.arena.node(j)]
                j != idx && j != pv && j != nx ==> b2.arena.occupied(j) == b0.arena.occupied(j)
                    && (b0.arena.occupied(j) ==> b2.arena.node(j) == b0.arena.node(j)),
            ({
                let q = b0.queues(side)[price];
                &&& i > 0 ==> b2.arena.occupied(pv) && b2.arena.node(pv) == (Node {
                    next: nx,
                    ..b0.arena.node(pv)
                })
                &&& i + 1 < q.len() ==> b2.arena.occupied(nx) && b2.arena.node(nx) == (Node {
                    prev: pv,
                    ..b0.arena.node(nx)
                })
                &&& !b2.arena.occupied(idx)
                &&& lv1 == (PriceLevel {
                    head: if b0.levels(side)[price].head == idx {
                        nx
                    } else {
                        b0.levels(side)[price].head
                    },
                    tail: if b0.levels(side)[price].tail == idx {
                        pv
                    } else {
                        b0.levels(side)[price].tail
                    },
                })
                &&& removed == (lv1.head == INVALID)
                &&& b2.queues(side) == (if removed {
                    b0.queues(side).remove(price)
                } else {
                    b0.queues(side).insert(price, q.remove(i))
                })
                &&& b2.levels(side) == (if removed {
                    b0.levels(side).remove(price)
                } else {
                    b0.levels(side).insert(price, lv1)
                })
            }),
            b2.queues(opposite(side)) == b0.queues(opposite(side)),
            b2.levels(opposite(side)) == b0.levels(opposite(side)),
            b2.owner@ == b0.owner@.remove(idx),
            b2.locations@ == b0.locations@.remove(id),
            b2.cached(opposite(side)) == b0.cached(opposite(side)),
            removed && b0.cached(side) == Some(price) ==> match b2.cached(side) {
                None => b2.levels(side).dom().is_empty(),
                Some(k) => is_best(side, b2.levels(side).dom(), k),
            },
            !(removed && b0.cached(side) == Some(price)) ==> b2.cached(side) == b0.cached(side),
        ensures
            b2.wf(),
            (b2@, true) == cancel_spec(b0@, id),
    {
        reveal(OrderBook::side_view);
        let q = b0.queues(side)[price];
        let nq = q.remove(i);
        b0.lemma_wf_inv();
        b0.lemma_view_wf();
        assert(b0.side_ok(side, None));
        assert(b0.queue_ok(side, price, None));
        assert(b0.slot_ok(side, price, q, i));
        assert(b0.owner@[idx] == (side, price));
        if i > 0 {
            assert(b0.slot_ok(side, price, q, i - 1));
            b0.arena.lemma_valid_index(pv);
        }
        if i + 1 < q.len() {
            assert(b0.slot_ok(side, price, q, i + 1));
            b0.arena.lemma_valid_index(nx);
        }
        let lv0 = b0.levels(side)[price];
        assert(level_ok(lv0, q));
        assert(b0.slot_ok(side, price, q, 0));
        assert(b0.slot_ok(side, price, q, q.len() - 1));
        b0.arena.lemma_valid_index(q[0]);
        b0.arena.lemma_valid_index(q.last());
        if i > 0 {
            assert(q[0] != idx);
        }
        if i + 1 < q.len() {
            assert(q.last() != idx);
        }
        assert(removed == (nq.len() == 0));
        // the changed level
        if !removed {
            assert(level_ok(lv1, nq));
            assert forall|k: int| 0 <= k < nq.len() implies #[trigger] b2.slot_ok(side, price, nq, k) by {
                let kk = if k < i {
                    k
                } else {
                    k + 1
                };
                assert(nq[k] == q[kk]);
                assert(b0.slot_ok(side, price, q, kk));
                assert(q[kk] != idx);
                b0.arena.lemma_valid_index(q[kk]);
                if kk == i - 1 {
                    assert(q[kk] == pv);
                    assert(next_of(nq, k) == nx);
                    assert(prev_of(nq, k) == prev_of(q, kk));
                } else if kk == i + 1 {
                    assert(q[kk] == nx);
                    assert(prev_of(nq, k) == pv);
                    assert(next_of(nq, k) == next_of(q, kk));
                } else {
                    assert(q[kk] != pv);
                    assert(q[kk] != nx);
                    assert(prev_of(nq, k) == prev_of(q, kk));
                    assert(next_of(nq, k) == next_of(q, kk));
                }
            }
            assert(b2.queue_ok(side, price, None));
        }
        // the other levels
        assert forall|j: u32|
            #[trigger] b0.arena.occupied(j) && b0.owner@.contains_key(j) && b0.owner@[j] != (
                side,
                price,
            ) implies {
            &&& b2.arena.occupied(j)
            &&& b2.arena.node(j) == b0.arena.node(j)
            &&& b2.owner@.contains_key(j)
            &&& b2.owner@[j] == b0.owner@[j]
        } by {
            b0.arena.lemma_valid_index(j);
        }
        Self::lemma_side_frame(b0, b2, side, None, None, side, price);
        Self::lemma_side_frame(b0, b2, opposite(side), None, None, side, price);
        // the index
        assert forall|k: u64| #[trigger] b2.locations@.contains_key(k) implies {
            let (s, p, x) = b2.locations@[k];
            &&& b2.queues(s).contains_key(p)
            &&& b2.queues(s)[p].contains(x)
            &&& b2.arena.node(x).id == k
        } by {
            let (s, p, x) = b0.locations@[k];
            assert(b0.side_ok(s, None));
            assert(b0.queue_ok(s, p, None));
            let j = choose|j: int| 0 <= j < b0.queues(s)[p].len() && b0.queues(s)[p][j] == x;
            assert(b0.slot_ok(s, p, b0.queues(s)[p], j));
            assert(x != idx);
            b0.arena.lemma_valid_index(x);
            if x != pv && x != nx {
                assert(b2.arena.node(x) == b0.arena.node(x));
            }
            if s != side {
                assert(s == opposite(side));
            } else if p == price {
                assert(j != i);
                if removed {
                    assert(q.len() == 1);
                }
                let jj = if j < i {
                    j
                } else {
                    j - 1
                };
                assert(nq[jj] == x);
            }
        }
        assert(b2.locations@.dom() =~= b0.locations@.dom().remove(id));
        // the cached best prices
        assert(b2.cache_ok(Side::Buy) && b2.cache_ok(Side::Sell)) by {
            if removed {
                assert(b2.levels(side).dom() == b0.levels(side).dom().remove(price));
            }
            match side {
                Side::Buy => {},
                Side::Sell => {},
            }
        }
        b2.lemma_inv_parts(side, None);
        assert(b2.inv(side, None));
        b2.lemma_wf_inv();
        // the view
        let vq = b0@.side(side)[price];
        assert(b0@.indexed_at(side, price, i, id)) by {
            assert(vq[i] == b0.resting(side, price, idx));
        }
        let (cs, cp, ci) = choose|s: Side, p: u64, k: int| b0@.indexed_at(s, p, k, id);
        assert(cs == side && cp == price && ci == i);
        let e = b0@.remove_at(side, price, i);
        Self::lemma_view_frame(b0, b2, side, None, side, price, Some(id), true);
        Self::lemma_view_frame(b0, b2, opposite(side), None, side, price, Some(id), true);
        b0.lemma_view_dom(side);
        b0.lemma_view_dom(opposite(side));
        b2.lemma_view_dom(side);
        b2.lemma_view_dom(opposite(side));
        if !removed {
            assert(b2.side_view(side)[price] =~= vq.remove(i)) by {
                let v2 = b2.side_view(side)[price];
                assert forall|k: int| 0 <= k < nq.len() implies v2[k] == #[trigger] vq.remove(i)[k] by {
                    let kk = if k < i {
                        k
                    } else {
                        k + 1
                    };
                    assert(b0.slot_ok(side, price, q, kk));
                    assert(vq[kk] == b0.resting(side, price, q[kk]));
                    assert(q[kk] != idx);
                    assert(nq[k] == q[kk]);
                    assert(v2[k] == b2.resting(side, price, q[kk]));
                    b0.arena.lemma_valid_index(q[kk]);
                    assert(b2.arena.node(q[kk]).id == b0.arena.node(q[kk]).id);
                    assert(b2.arena.node(q[kk]).qty == b0.arena.node(q[kk]).qty);
                }
            }
        }
        assert(b2.side_view(side) =~= e.side(side));
        assert(b2.side_view(opposite(side)) =~= e.side(opposite(side)));
        match side {
            Side::Buy => {
                assert(b2@ == e);
            },
            Side::Sell => {
                assert(b2@ == e);
            },
        }
    }
}


/// A queue of a view, made canonical: dropped when empty.
pub open spec fn norm(v: BookView, s: Side, p: u64) -> BookView {
    v.set_queue(s, p, v.side(s)[p])
}

impl OrderBook {
    /// With its one permitted hole filled, the relaxed invariant is the
    /// invariant.
    proof fn lemma_inv_to_wf(&self, s: Side, p: u64)
        requires
            self.inv(s, Some(p)),
            self.queues(s).contains_key(p) ==> self.queues(s)[p].len() > 0,
        ensures
            self.wf(),
    {
        self.lemma_inv_parts(s, Some(p));
        self.lemma_inv_parts(s, None);
        self.lemma_wf_inv();
        assert forall|k: u64| #[trigger] self.queues(s).contains_key(k) implies self.queue_ok(s, k, None) by {
            assert(self.queue_ok(s, k, Some(p)));
        }
        assert(self.side_ok(s, None));
        match s {
            Side::Buy => {},
            Side::Sell => {
                self.lemma_wf_inv();
            },
        }
    }

    /// Normalising a view at a non-empty level changes nothing.
    proof fn lemma_norm_id(v: BookView, s: Side, p: u64)
        requires
            v.side(s).contains_key(p),
            v.side(s)[p].len() > 0,
        ensures
            norm(v, s, p) == v,
    {
        assert(v.side(s).insert(p, v.side(s)[p]) =~= v.side(s));
        match s {
            Side::Buy => {},
            Side::Sell => {},
        }
    }

    /// A partial fill of the head order of level `p` on side `ms`.
    #[verifier::rlimit(40)]
    proof fn lemma_fill_partial(b0: &OrderBook, b2: &OrderBook, ms: Side, p: u64, f: u64)
        requires
            b0.wf(),
            b0.queues(ms).contains_key(p),
            0 < f < b0.arena.node(b0.queues(ms)[p][0]).qty,
            b2.arena.wf(),
            b2.nodes_in_use() == b0.nodes_in_use(),
            forall|j: u32|
                #![trigger b2.arena.occupied(j)]
                #![trigger b2.arena.node(j)]
                j != b0.queues(ms)[p][0] ==> b2.arena.occupied(j) == b0.arena.occupied(j) && (
                b0.arena.occupied(j) ==> b2.arena.node(j) == b0.arena.node(j)),
            b2.arena.occupied(b0.queues(ms)[p][0]),
            b2.arena.node(b0.queues(ms)[p][0]) == (Node {
                qty: (b0.arena.node(b0.queues(ms)[p][0]).qty - f) as u64,
                ..b0.arena.node(b0.queues(ms)[p][0])
            }),
            b2.queues(Side::Buy) == b0.queues(Side::Buy),
            b2.queues(Side::Sell) == b0.queues(Side::Sell),
            b2.levels(Side::Buy) == b0.levels(Side::Buy),
            b2.levels(Side::Sell) == b0.levels(Side::Sell),
            b2.owner@ == b0.owner@,
            b2.locations@ == b0.locations@,
            b2.cached(Side::Buy) == b0.cached(Side::Buy),
            b2.cached(Side::Sell) == b0.cached(Side::Sell),
        ensures
            b2.wf(),
            b2@ == b0@.take_head(ms, p, f),
    {
        reveal(OrderBook::side_view);
        let q = b0.queues(ms)[p];
        let h = q[0];
        b0.lemma_wf_inv();
        assert(b0.side_ok(ms, None));
        assert(b0.queue_ok(ms, p, None));
        assert(b0.slot_ok(ms, p, q, 0));
        assert(b0.owner@[h] == (ms, p));
        assert forall|k: int| 0 <= k < q.len() implies #[trigger] b2.slot_ok(ms, p, q, k) by {
            assert(b0.slot_ok(ms, p, q, k));
        }
        assert(b2.queue_ok(ms, p, None));
        assert forall|j: u32|
            #[trigger] b0.arena.occupied(j) && b0.owner@.contains_key(j) && b0.owner@[j] != (
                ms,
                p,
            ) implies {
            &&& b2.arena.occupied(j)
            &&& b2.arena.node(j) == b0.arena.node(j)
            &&& b2.owner@.contains_key(j)
            &&& b2.owner@[j] == b0.owner@[j]
        } by {}
        Self::lemma_side_frame(b0, b2, ms, None, None, ms, p);
        Self::lemma_side_frame(b0, b2, opposite(ms), None, None, ms, p);
        assert forall|k: u64| #[trigger] b2.locations@.contains_key(k) implies {
            let (s, pp, x) = b2.locations@[k];
            &&& b2.queues(s).contains_key(pp)
            &&& b2.queues(s)[pp].contains(x)
            &&& b2.arena.node(x).id == k
        } by {
            let (s, pp, x) = b0.locations@[k];
            assert(b0.side_ok(s, None));
            assert(b0.queue_ok(s, pp, None));
            let j = choose|j: int| 0 <= j < b0.queues(s)[pp].len() && b0.queues(s)[pp][j] == x;
            assert(b0.slot_ok(s, pp, b0.queues(s)[pp], j));
            assert(b2.arena.node(x).id == b0.arena.node(x).id);
        }
        assert(b2.cache_ok(Side::Buy) && b2.cache_ok(Side::Sell));
        b2.lemma_inv_parts(ms, None);
        assert(b2.inv(ms, None));
        b2.lemma_wf_inv();
        // the view
        let vq = b0@.side(ms)[p];
        let e = b0@.take_head(ms, p, f);
        Self::lemma_view_frame(b0, b2, ms, None, ms, p, None, true);
        Self::lemma_view_frame(b0, b2, opposite(ms), None, ms, p, None, true);
        b0.lemma_view_dom(ms);
        b0.lemma_view_dom(opposite(ms));
        b2.lemma_view_dom(ms);
        b2.lemma_view_dom(opposite(ms));
        assert(vq[0] == b0.resting(ms, p, h));
        assert(b2.side_view(ms)[p] =~= vq.update(
            0,
            Resting { id: vq[0].id, qty: (vq[0].qty - f) as u64, indexed: vq[0].indexed },
        )) by {
            assert forall|k: int| 0 <= k < q.len() implies #[trigger] b2.side_view(ms)[p][k] == vq.update(
                0,
                Resting { id: vq[0].id, qty: (vq[0].qty - f) as u64, indexed: vq[0].indexed },
            )[k] by {
                assert(vq[k] == b0.resting(ms, p, q[k]));
                if k > 0 {
                    assert(b0.slot_ok(ms, p, q, k));
                    assert(q[k] != h);
                }
            }
        }
        assert(b2.side_view(ms) =~= e.side(ms));
        assert(b2.side_view(opposite(ms)) =~= e.side(opposite(ms)));
        match ms {
            Side::Buy => {
                assert(b2@ == e);
            },
            Side::Sell => {
                assert(b2@ == e);
            },
        }
    }
}


impl OrderBook {
    /// A fill that uses up the head order of level `p` on side `ms`: the
    /// order leaves the list and its id leaves the index.
    #[verifier::rlimit(60)]
    proof fn lemma_fill_full(b0: &OrderBook, b2: &OrderBook, ms: Side, p: u64, lv1: PriceLevel, nx: u32)
        requires
            b0.wf(),
            b0.queues(ms).contains_key(p),
            nx == next_of(b0.queues(ms)[p], 0),
            b2.arena.wf(),
            b2.nodes_in_use() + 1 == b0.nodes_in_use(),
            forall|j: u32|
                #![trigger b2.arena.occupied(j)]
                #![trigger b2.arena.node(j)]
                j != b0.queues(ms)[p][0] && j != nx ==> b2.arena.occupied(j) == b0.arena.occupied(j)
                    && (b0.arena.occupied(j) ==> b2.arena.node(j) == b0.arena.node(j)),
            !b2.arena.occupied(b0.queues(ms)[p][0]),
            nx != INVALID ==> b2.arena.occupied(nx) && b2.arena.node(nx) == (Node {
                prev: INVALID,
                ..b0.arena.node(nx)
            }),
            lv1 == (PriceLevel {
                head: nx,
                tail: if nx == INVALID {
                    INVALID
                } else {
                    b0.levels(ms)[p].tail
                },
            }),
            b2.queues(ms) == b0.queues(ms).insert(p, b0.queues(ms)[p].drop_first()),
            b2.levels(ms) == b0.levels(ms).insert(p, lv1),
            b2.queues(opposite(ms)) == b0.queues(opposite(ms)),
            b2.levels(opposite(ms)) == b0.levels(opposite(ms)),
            b2.owner@ == b0.owner@.remove(b0.queues(ms)[p][0]),
            b2.locations@ == b0.locations@.remove(b0.arena.node(b0.queues(ms)[p][0]).id),
            b2.cached(Side::Buy) == b0.cached(Side::Buy),
            b2.cached(Side::Sell) == b0.cached(Side::Sell),
        ensures
            b2.inv(ms, Some(p)),
            b2.queues(ms).contains_key(p),
            norm(b2@, ms, p) == b0@.take_head(ms, p, b0.arena.node(b0.queues(ms)[p][0]).qty),
    {
        reveal(OrderBook::side_view);
        let q = b0.queues(ms)[p];
        let nq = q.drop_first();
        let h = q[0];
        let mid = b0.arena.node(h).id;
        b0.lemma_wf_inv();
        b0.lemma_view_wf();
        assert(b0.side_ok(ms, None));
        assert(b0.queue_ok(ms, p, None));
        assert(b0.slot_ok(ms, p, q, 0));
        assert(b0.owner@[h] == (ms, p));
        let lv0 = b0.levels(ms)[p];
        assert(level_ok(lv0, q));
        if q.len() > 1 {
            assert(b0.slot_ok(ms, p, q, 1));
            b0.arena.lemma_valid_index(q[1]);
            assert(q.last() != h);
            assert(b0.slot_ok(ms, p, q, q.len() - 1));
        }
        assert(level_ok(lv1, nq));
        // the changed level
        assert forall|k: int| 0 <= k < nq.len() implies #[trigger] b2.slot_ok(ms, p, nq, k) by {
            assert(nq[k] == q[k + 1]);
            assert(b0.slot_ok(ms, p, q, k + 1));
            assert(q[k + 1] != h);
            b0.arena.lemma_valid_index(q[k + 1]);
            if k == 0 {
                assert(q[1] == nx);
            } else {
                assert(q[k + 1] != nx);
            }
        }
        assert(b2.queue_ok(ms, p, Some(p)));
        // the other levels
        assert forall|j: u32|
            #[trigger] b0.arena.occupied(j) && b0.owner@.contains_key(j) && b0.owner@[j] != (
                ms,
                p,
            ) implies {
            &&& b2.arena.occupied(j)
            &&& b2.arena.node(j) == b0.arena.node(j)
            &&& b2.owner@.contains_key(j)
            &&& b2.owner@[j] == b0.owner@[j]
        } by {
            b0.arena.lemma_valid_index(j);
        }
        Self::lemma_side_frame(b0, b2, ms, None, Some(p), ms, p);
        Self::lemma_side_frame(b0, b2, opposite(ms), None, None, ms, p);
        // the index
        assert forall|k: u64| #[trigger] b2.locations@.contains_key(k) implies {
            let (s, pp, x) = b2.locations@[k];
            &&& b2.queues(s).contains_key(pp)
            &&& b2.queues(s)[pp].contains(x)
            &&& b2.arena.node(x).id == k
        } by {
            let (s, pp, x) = b0.locations@[k];
            assert(b0.side_ok(s, None));
            assert(b0.queue_ok(s, pp, None));
            let j = choose|j: int| 0 <= j < b0.queues(s)[pp].len() && b0.queues(s)[pp][j] == x;
            assert(b0.slot_ok(s, pp, b0.queues(s)[pp], j));
            assert(x != h);
            b0.arena.lemma_valid_index(x);
            assert(b2.arena.node(x).id == b0.arena.node(x).id);
            if s != ms {
                assert(s == opposite(ms));
            } else if pp == p {
                assert(j != 0);
                assert(nq[j - 1] == x);
            }
        }
        assert(b2.locations@.dom() =~= b0.locations@.dom().remove(mid));
        assert(b2.cache_ok(Side::Buy) && b2.cache_ok(Side::Sell)) by {
            assert(b2.levels(ms).dom() =~= b0.levels(ms).dom());
            match ms {
                Side::Buy => {},
                Side::Sell => {},
            }
        }
        b2.lemma_inv_parts(ms, Some(p));
        assert(b2.inv(ms, Some(p)));
        // the view
        let vq = b0@.side(ms)[p];
        assert(vq[0] == b0.resting(ms, p, h));
        let e = b0@.take_head(ms, p, b0.arena.node(h).qty);
        Self::lemma_view_frame(b0, b2, ms, None, ms, p, Some(mid), false);
        Self::lemma_view_frame(b0, b2, opposite(ms), None, ms, p, Some(mid), false);
        b0.lemma_view_dom(ms);
        b0.lemma_view_dom(opposite(ms));
        b2.lemma_view_dom(ms);
        b2.lemma_view_dom(opposite(ms));
        let n = norm(b2@, ms, p);
        assert(b2.side_view(ms)[p] =~= crate::model::clear_mark(vq.drop_first(), mid)) by {
            assert forall|k: int| 0 <= k < nq.len() implies #[trigger] b2.side_view(ms)[p][k]
                == crate::model::clear_mark(vq.drop_first(), mid)[k] by {
                assert(b0.slot_ok(ms, p, q, k + 1));
                assert(vq[k + 1] == b0.resting(ms, p, q[k + 1]));
                assert(q[k + 1] != h);
                b0.arena.lemma_valid_index(q[k + 1]);
                assert(b2.arena.node(q[k + 1]).id == b0.arena.node(q[k + 1]).id);
                assert(b2.arena.node(q[k + 1]).qty == b0.arena.node(q[k + 1]).qty);
            }
        }
        assert(n.side(ms) =~= e.side(ms));
        assert(n.side(opposite(ms)) =~= e.side(opposite(ms)));
        match ms {
            Side::Buy => {
                assert(n == e);
            },
            Side::Sell => {
                assert(n == e);
            },
        }
    }
}


impl OrderBook {
    proof fn lemma_wf_to_inv(&self, s: Side, p: u64)
        requires
            self.wf(),
        ensures
            self.inv(s, Some(p)),
    {
        self.lemma_wf_inv();
        self.lemma_inv_parts(s, Some(p));
        self.lemma_inv_parts(s, None);
        assert forall|k: u64| #[trigger] self.queues(s).contains_key(k) implies self.queue_ok(s, k, Some(p)) by {
            assert(self.queue_ok(s, k, None));
        }
    }

    /// Fills against the oldest order of `level` (price `price` on side `ms`).
    fn fill_head(
        &mut self,
        ms: Side,
        price: Price,
        level: &mut PriceLevel,
        taker_side: Side,
        taker_id: OrderId,
        remaining: &mut Qty,
        fills: &mut Vec<Fill>,
        Ghost(taker): Ghost<Order>,
    )
        requires
            old(self).wf(),
            ms == opposite(taker_side),
            taker.side == taker_side,
            taker.id == taker_id,
            crosses(taker, price),
            *old(remaining) > 0,
            old(self).cached(ms) == Some(price),
            old(self).queues(ms).contains_key(price),
            old(self).levels(ms)[price] == *old(level),
        ensures
            crate::model::can_trade(old(self)@, taker, *old(remaining) as nat),
            final(self).inv(ms, Some(price)),
            final(self).queues(ms).contains_key(price),
            final(self).levels(ms)[price] == *final(level),
            final(self).cached(Side::Buy) == old(self).cached(Side::Buy),
            final(self).cached(Side::Sell) == old(self).cached(Side::Sell),
            final(self).nodes_in_use() <= old(self).nodes_in_use(),
            final(fills)@ == old(fills)@.push(
                crate::model::next_fill(old(self)@, taker, *old(remaining) as nat),
            ),
            *final(remaining) == *old(remaining) - crate::model::next_fill(
                old(self)@,
                taker,
                *old(remaining) as nat,
            ).qty,
            crate::model::next_fill(old(self)@, taker, *old(remaining) as nat).qty > 0,
            norm(final(self)@, ms, price) == old(self)@.take_head(
                ms,
                price,
                crate::model::next_fill(old(self)@, taker, *old(remaining) as nat).qty,
            ),
    {
        let ghost b0 = *self;
        let ghost rem = *remaining as nat;
        let ghost q = self.queues(ms)[price];
        let head_idx = level.head;
        proof {
            self.lemma_wf_inv();
            self.lemma_cached_best(ms);
            self.lemma_view_dom(ms);
            self.lemma_view_wf();
            assert(self.queue_ok(ms, price, None));
            assert(self.slot_ok(ms, price, q, 0));
            assert(head_idx == q[0]);
            assert(self@.side(ms)[price][0] == self.resting(ms, price, head_idx));
        }
        let ghost a0 = self.arena;
        let (maker_id, fill_qty, maker_qty, maker_next) = {
            let maker = self.arena.get_mut(head_idx);
            let fq = if *remaining < maker.qty {
                *remaining
            } else {
                maker.qty
            };
            maker.qty -= fq;
            *remaining -= fq;
            (maker.id, fq, maker.qty, maker.next)
        };
        let ghost a1 = self.arena;
        fills.push(Fill { maker_id, taker_id, price, qty: fill_qty, side: taker_side });
        proof {
            assert(fills@.last() == crate::model::next_fill(b0@, taker, rem));
            assert(crate::model::can_trade(b0@, taker, rem));
        }
        if maker_qty == 0 {
            level.head = maker_next;
            if maker_next != INVALID {
                proof {
                    assert(b0.slot_ok(ms, price, q, 1));
                    assert(a1.occupied(maker_next));
                }
                self.arena.get_mut(maker_next).prev = INVALID;
            } else {
                level.tail = INVALID;
            }
            let ghost a2 = self.arena;
            self.arena.dealloc(head_idx);
            fx_remove(&mut self.locations, maker_id);
            self.level_set(ms, price, *level);
            proof {
                match ms {
                    Side::Buy => {
                        self.bid_queues@ = self.bid_queues@.insert(price, q.drop_first());
                    },
                    Side::Sell => {
                        self.ask_queues@ = self.ask_queues@.insert(price, q.drop_first());
                    },
                }
                self.owner@ = self.owner@.remove(head_idx);
                let nx = next_of(q, 0);
                assert(maker_next == nx);
                assert forall|j: u32| j != head_idx && j != nx implies #[trigger] self.arena.occupied(j)
                    == b0.arena.occupied(j) && (b0.arena.occupied(j) ==> self.arena.node(j)
                    == b0.arena.node(j)) by {
                    assert(a1.occupied(j) == a0.occupied(j));
                    assert(a2.occupied(j) == a1.occupied(j));
                    assert(self.arena.occupied(j) == a2.occupied(j));
                }
                if nx != INVALID {
                    assert(nx != head_idx);
                    assert(self.arena.occupied(nx));
                }
                Self::lemma_fill_full(&b0, self, ms, price, *level, nx);
            }
        } else {
            self.level_set(ms, price, *level);
            proof {
                assert forall|j: u32| j != head_idx implies #[trigger] self.arena.occupied(j)
                    == b0.arena.occupied(j) && (b0.arena.occupied(j) ==> self.arena.node(j)
                    == b0.arena.node(j)) by {
                    assert(a1.occupied(j) == a0.occupied(j));
                }
                assert(self.levels(ms) =~= b0.levels(ms));
                assert(self.levels(opposite(ms)) == b0.levels(opposite(ms)));
                Self::lemma_fill_partial(&b0, self, ms, price, fill_qty);
                self.lemma_wf_to_inv(ms, price);
                self.lemma_wf_inv();
                self.lemma_view_dom(ms);
                assert(self.queue_ok(ms, price, None));
                Self::lemma_norm_id(self@, ms, price);
            }
        }
    }

    /// Walk a single price level, filling against resting orders.
    /// `taker_side` is the side of the incoming aggressive order.
    fn fill_at_level(
        &mut self,
        taker_side: Side,
        price: Price,
        taker_id: OrderId,
        remaining: &mut Qty,
        fills: &mut Vec<Fill>,
        Ghost(taker): Ghost<Order>,
    )
        requires
            old(self).wf(),
            taker.side == taker_side,
            taker.id == taker_id,
            *old(remaining) > 0,
            old(self)@.best(opposite(taker_side)) == Some(price),
            crosses(taker, price),
        ensures
            final(self).inv(opposite(taker_side), Some(price)),
            final(self).queues(opposite(taker_side)).contains_key(price),
            *final(remaining) < *old(remaining),
            *final(remaining) > 0 ==> final(self).queues(opposite(taker_side))[price].len() == 0,
            final(self).cached(Side::Buy) == old(self).cached(Side::Buy),
            final(self).cached(Side::Sell) == old(self).cached(Side::Sell),
            final(self).nodes_in_use() <= old(self).nodes_in_use(),
            final(fills)@.len() >= old(fills)@.len(),
            final(fills)@.subrange(0, old(fills)@.len() as int) == old(fills)@,
            ({
                let t = sweep(old(self)@, taker, *old(remaining) as nat);
                let r = sweep(
                    norm(final(self)@, opposite(taker_side), price),
                    taker,
                    *final(remaining) as nat,
                );
                &&& t.0 == r.0
                &&& t.1 == r.1
                &&& t.2 == final(fills)@.subrange(old(fills)@.len() as int, final(fills)@.len() as int)
                    + r.2
            }),
    {
        let ms = match taker_side {
            Side::Buy => Side::Sell,
            Side::Sell => Side::Buy,
        };
        proof {
            self.lemma_wf_inv();
            self.lemma_cached_best(ms);
            self.lemma_view_dom(ms);
            self.lemma_wf_to_inv(ms, price);
        }
        let mut level = match self.level_get(ms, price) {
            Some(l) => l,
            None => return ,
        };
        let ghost v0 = self@;
        let ghost r0 = *remaining as nat;
        let ghost n0 = fills@.len() as int;
        let ghost t = sweep(v0, taker, r0);
        proof {
            self.lemma_view_wf();
            Self::lemma_norm_id(v0, ms, price);
            assert(fills@.subrange(n0, fills@.len() as int) =~= Seq::<Fill>::empty());
            assert(fills@.subrange(0, n0) =~= fills@);
            assert(self.queue_ok(ms, price, None));
        }
        while *remaining > 0
            invariant
                ms == opposite(taker_side),
                taker.side == taker_side,
                taker.id == taker_id,
                crosses(taker, price),
                self.inv(ms, Some(price)),
                self.queues(ms).contains_key(price),
                self.levels(ms)[price] == level,
                self.cached(Side::Buy) == old(self).cached(Side::Buy),
                self.cached(Side::Sell) == old(self).cached(Side::Sell),
                self.cached(ms) == Some(price),
                self.nodes_in_use() <= old(self).nodes_in_use(),
                *remaining <= r0,
                *remaining == r0 ==> self.queues(ms)[price].len() > 0,
                r0 == *old(remaining),
                t == sweep(v0, taker, r0),
                n0 == old(fills)@.len(),
                fills@.len() >= n0,
                fills@.subrange(0, n0) == old(fills)@,
                ({
                    let r = sweep(norm(self@, ms, price), taker, *remaining as nat);
                    &&& t.0 == r.0
                    &&& t.1 == r.1
                    &&& t.2 == fills@.subrange(n0, fills@.len() as int) + r.2
                }),
            ensures
                *remaining == 0 || self.queues(ms)[price].len() == 0,
            decreases *remaining,
        {
            if level.head == INVALID {
                proof {
                    self.lemma_inv_parts(ms, Some(price));
                    assert(self.side_ok(ms, Some(price)));
                    assert(self.queue_ok(ms, price, Some(price)));
                    let q = self.queues(ms)[price];
                    if q.len() > 0 {
                        assert(self.slot_ok(ms, price, q, 0));
                        self.arena.lemma_valid_index(q[0]);
                    }
                }
                break;
            }
            let ghost b0 = *self;
            let ghost rem = *remaining as nat;
            let ghost fills0 = fills@;
            proof {
                self.lemma_inv_parts(ms, Some(price));
                assert(self.side_ok(ms, Some(price)));
                assert(self.queue_ok(ms, price, Some(price)));
                assert(self.queues(ms)[price].len() > 0);
                self.lemma_inv_to_wf(ms, price);
                self.lemma_wf_inv();
                self.lemma_view_dom(ms);
                assert(self.queue_ok(ms, price, None));
                Self::lemma_norm_id(self@, ms, price);
            }
            self.fill_head(ms, price, &mut level, taker_side, taker_id, remaining, fills, Ghost(taker));
            proof {
                let f = fills@.last();
                let s1 = sweep(b0@.take_head(ms, price, f.qty), taker, (rem - f.qty) as nat);
                crate::model::lemma_sweep_step(b0@, taker, rem);
                assert(sweep(b0@, taker, rem) == (s1.0, s1.1, seq![f] + s1.2));
                assert(fills@.subrange(n0, fills@.len() as int) =~= fills0.subrange(n0, fills0.len() as int).push(f));
                assert(fills@.subrange(0, n0) =~= fills0.subrange(0, n0));
                assert(fills0.subrange(n0, fills0.len() as int).push(f) + s1.2 =~= fills0.subrange(
                    n0,
                    fills0.len() as int,
                ) + (seq![f] + s1.2));
            }
        }
    }
}


impl OrderBook {
    /// Dropping an emptied level restores the invariant.
    proof fn lemma_remove_empty(b0: &OrderBook, b2: &OrderBook, ms: Side, p: u64)
        requires
            b0.inv(ms, Some(p)),
            b0.queues(ms).contains_key(p),
            b0.queues(ms)[p].len() == 0,
            b2.arena == b0.arena,
            b2.owner == b0.owner,
            b2.locations@ == b0.locations@,
            b2.levels(ms) == b0.levels(ms).remove(p),
            b2.queues(ms) == b0.queues(ms).remove(p),
            b2.levels(opposite(ms)) == b0.levels(opposite(ms)),
            b2.queues(opposite(ms)) == b0.queues(opposite(ms)),
            b2.cached(opposite(ms)) == b0.cached(opposite(ms)),
            match b2.cached(ms) {
                None => b2.levels(ms).dom().is_empty(),
                Some(k) => is_best(ms, b2.levels(ms).dom(), k),
            },
        ensures
            b2.wf(),
            b2@ == norm(b0@, ms, p),
            b2.nodes_in_use() == b0.nodes_in_use(),
    {
        reveal(OrderBook::side_view);
        b0.lemma_inv_parts(ms, Some(p));
        b2.lemma_inv_parts(ms, None);
        assert forall|k: u64| #[trigger] b2.queues(ms).contains_key(k) implies b2.queue_ok(ms, k, None) by {
            assert(b0.queue_ok(ms, k, Some(p)));
            let q = b0.queues(ms)[k];
            assert forall|i: int| 0 <= i < q.len() implies #[trigger] b2.slot_ok(ms, k, q, i) by {
                assert(b0.slot_ok(ms, k, q, i));
            }
        }
        assert(b2.side_ok(ms, None));
        assert(b2.side_ok(opposite(ms), None)) by {
            assert forall|k: u64| #[trigger] b2.queues(opposite(ms)).contains_key(k) implies b2.queue_ok(
                opposite(ms),
                k,
                None,
            ) by {
                assert(b0.queue_ok(opposite(ms), k, None));
                let q = b0.queues(opposite(ms))[k];
                assert forall|i: int| 0 <= i < q.len() implies #[trigger] b2.slot_ok(opposite(ms), k, q, i) by {
                    assert(b0.slot_ok(opposite(ms), k, q, i));
                }
            }
        }
        assert(b2.locs_ok()) by {
            assert forall|id: u64| #[trigger] b2.locations@.contains_key(id) implies {
                let (s, pp, x) = b2.locations@[id];
                &&& b2.queues(s).contains_key(pp)
                &&& b2.queues(s)[pp].contains(x)
                &&& b2.arena.node(x).id == id
            } by {
                let (s, pp, x) = b0.locations@[id];
                if s != ms {
                    assert(s == opposite(ms));
                }
                if s == ms && pp == p {
                    assert(b0.queues(ms)[p].contains(x));
                }
            }
        }
        assert(b2.cache_ok(Side::Buy) && b2.cache_ok(Side::Sell)) by {
            match ms {
                Side::Buy => {},
                Side::Sell => {},
            }
        }
        assert(b2.inv(ms, None));
        b2.lemma_wf_inv();
        // the view
        let n = norm(b0@, ms, p);
        b0.lemma_view_dom(ms);
        assert(b0@.side(ms)[p] =~= Seq::<Resting>::empty());
        assert(b2.side_view(ms) =~= n.side(ms)) by {
            assert forall|k: u64| #[trigger] b2.side_view(ms).contains_key(k) implies b2.side_view(ms)[k]
                == n.side(ms)[k] by {
                assert(b2.side_view(ms)[k] =~= b0.side_view(ms)[k]);
            }
        }
        assert(b2.side_view(opposite(ms)) =~= n.side(opposite(ms))) by {
            assert forall|k: u64| #[trigger] b2.side_view(opposite(ms)).contains_key(k) implies b2.side_view(
                opposite(ms),
            )[k] == n.side(opposite(ms))[k] by {
                assert(b2.side_view(opposite(ms))[k] =~= b0.side_view(opposite(ms))[k]);
            }
        }
        match ms {
            Side::Buy => {
                assert(b2@ == n);
            },
            Side::Sell => {
                assert(b2@ == n);
            },
        }
    }

    /// After a level has been walked: drops it when it was used up, and
    /// recomputes the cached best price of that side.
    fn drop_level_if_empty(&mut self, ms: Side, price: Price)
        requires
            old(self).inv(ms, Some(price)),
            old(self).queues(ms).contains_key(price),
        ensures
            final(self).wf(),
            final(self)@ == norm(old(self)@, ms, price),
            final(self).nodes_in_use() == old(self).nodes_in_use(),
    {
        proof {
            self.lemma_inv_parts(ms, Some(price));
            assert(self.side_ok(ms, Some(price)));
            assert(self.queue_ok(ms, price, Some(price)));
            let q = self.queues(ms)[price];
            if q.len() > 0 {
                assert(self.slot_ok(ms, price, q, 0));
                self.arena.lemma_valid_index(q[0]);
            }
        }
        let empty = match self.level_get(ms, price) {
            None => true,
            Some(l) => l.is_empty(),
        };
        if empty {
            self.level_remove(ms, price);
            proof {
                match ms {
                    Side::Buy => {
                        self.bid_queues@ = self.bid_queues@.remove(price);
                    },
                    Side::Sell => {
                        self.ask_queues@ = self.ask_queues@.remove(price);
                    },
                }
            }
            match ms {
                Side::Buy => {
                    self.cached_best_bid = last_key(&self.bids);
                },
                Side::Sell => {
                    self.cached_best_ask = first_key(&self.asks);
                },
            }
            proof {
                Self::lemma_remove_empty(old(self), self, ms, price);
            }
        } else {
            proof {
                self.lemma_inv_to_wf(ms, price);
                self.lemma_wf_inv();
                self.lemma_view_dom(ms);
                assert(self.queue_ok(ms, price, None));
                Self::lemma_norm_id(self@, ms, price);
            }
        }
    }

    /// Incoming **buy** matched against the ask side (lowest first).
    #[verifier::rlimit(80)]
    fn match_buy(&mut self, order: &Order, remaining: &mut Qty, fills: &mut Vec<Fill>)
        requires
            old(self).wf(),
            order.side == Side::Buy,
        ensures
            final(self).wf(),
            ({
                let t = sweep(old(self)@, *order, *old(remaining) as nat);
                &&& final(self)@ == t.0
                &&& *final(remaining) == t.1
                &&& final(fills)@ == old(fills)@ + t.2
            }),
            final(self).nodes_in_use() <= old(self).nodes_in_use(),
    {
        let ghost v0 = self@;
        let ghost r0 = *remaining as nat;
        let ghost n0 = fills@.len() as int;
        let ghost t = sweep(v0, *order, r0);
        proof {
            assert(fills@.subrange(n0, fills@.len() as int) =~= Seq::<Fill>::empty());
            assert(fills@.subrange(0, n0) =~= fills@);
        }
        while *remaining > 0
            invariant
                self.wf(),
                order.side == Side::Buy,
                v0 == old(self)@,
                r0 == *old(remaining),
                t == sweep(v0, *order, r0),
                n0 == old(fills)@.len(),
                fills@.len() >= n0,
                fills@.subrange(0, n0) == old(fills)@,
                self.nodes_in_use() <= old(self).nodes_in_use(),
                ({
                    let r = sweep(self@, *order, *remaining as nat);
                    &&& t.0 == r.0
                    &&& t.1 == r.1
                    &&& t.2 == fills@.subrange(n0, fills@.len() as int) + r.2
                }),
            decreases *remaining,
        {
            proof {
                self.lemma_cached_best(Side::Sell);
            }
            let best_ask = match self.cached_best_ask {
                Some(p) => p,
                None => {
                    proof {
                        crate::model::lemma_sweep_stop(self@, *order, *remaining as nat);
                        assert(fills@.subrange(n0, fills@.len() as int) + Seq::<Fill>::empty() =~= fills@.subrange(n0, fills@.len() as int));
                        assert(fills@ =~= fills@.subrange(0, n0) + fills@.subrange(n0, fills@.len() as int));
                    }
                    return ;
                },
            };
            if order.order_type == OrderType::Limit && best_ask > order.price {
                proof {
                    crate::model::lemma_sweep_stop(self@, *order, *remaining as nat);
                    assert(fills@.subrange(n0, fills@.len() as int) + Seq::<Fill>::empty() =~= fills@.subrange(n0, fills@.len() as int));
                    assert(fills@ =~= fills@.subrange(0, n0) + fills@.subrange(n0, fills@.len() as int));
                }
                return ;
            }
            let ghost fills0 = fills@;
            let ghost rem0 = *remaining;
            self.fill_at_level(Side::Buy, best_ask, order.id, remaining, fills, Ghost(*order));
            let ghost fills1 = fills@;
            self.drop_level_if_empty(Side::Sell, best_ask);
            proof {
                assert(fills1.subrange(0, n0) =~= fills0.subrange(0, n0));
                assert(fills1.subrange(n0, fills1.len() as int) =~= fills0.subrange(n0, fills0.len() as int)
                    + fills1.subrange(fills0.len() as int, fills1.len() as int));
            }
        }
        proof {
            crate::model::lemma_sweep_stop(self@, *order, *remaining as nat);
            assert(fills@.subrange(n0, fills@.len() as int) + Seq::<Fill>::empty() =~= fills@.subrange(n0, fills@.len() as int));
            assert(fills@ =~= fills@.subrange(0, n0) + fills@.subrange(n0, fills@.len() as int));
        }
    }

    /// Incoming **sell** matched against the bid side (highest first).
    #[verifier::rlimit(80)]
    fn match_sell(&mut self, order: &Order, remaining: &mut Qty, fills: &mut Vec<Fill>)
        requires
            old(self).wf(),
            order.side == Side::Sell,
        ensures
            final(self).wf(),
            ({
                let t = sweep(old(self)@, *order, *old(remaining) as nat);
                &&& final(self)@ == t.0
                &&& *final(remaining) == t.1
                &&& final(fills)@ == old(fills)@ + t.2
            }),
            final(self).nodes_in_use() <= old(self).nodes_in_use(),
    {
        let ghost v0 = self@;
        let ghost r0 = *remaining as nat;
        let ghost n0 = fills@.len() as int;
        let ghost t = sweep(v0, *order, r0);
        proof {
            assert(fills@.subrange(n0, fills@.len() as int) =~= Seq::<Fill>::empty());
            assert(fills@.subrange(0, n0) =~= fills@);
        }
        while *remaining > 0
            invariant
                self.wf(),
                order.side == Side::Sell,
                v0 == old(self)@,
                r0 == *old(remaining),
                t == sweep(v0, *order, r0),
                n0 == old(fills)@.len(),
                fills@.len() >= n0,
                fills@.subrange(0, n0) == old(fills)@,
                self.nodes_in_use() <= old(self).nodes_in_use(),
                ({
                    let r = sweep(self@, *order, *remaining as nat);
                    &&& t.0 == r.0
                    &&& t.1 == r.1
                    &&& t.2 == fills@.subrange(n0, fills@.len() as int) + r.2
                }),
            decreases *remaining,
        {
            proof {
                self.lemma_cached_best(Side::Buy);
            }
            let best_bid = match self.cached_best_bid {
                Some(p) => p,
                None => {
                    proof {
                        crate::model::lemma_sweep_stop(self@, *order, *remaining as nat);
                        assert(fills@.subrange(n0, fills@.len() as int) + Seq::<Fill>::empty() =~= fills@.subrange(n0, fills@.len() as int));
                        assert(fills@ =~= fills@.subrange(0, n0) + fills@.subrange(n0, fills@.len() as int));
                    }
                    return ;
                },
            };
            if order.order_type == OrderType::Limit && best_bid < order.price {
                proof {
                    crate::model::lemma_sweep_stop(self@, *order, *remaining as nat);
                    assert(fills@.subrange(n0, fills@.len() as int) + Seq::<Fill>::empty() =~= fills@.subrange(n0, fills@.len() as int));
                    assert(fills@ =~= fills@.subrange(0, n0) + fills@.subrange(n0, fills@.len() as int));
                }
                return ;
            }
            let ghost fills0 = fills@;
            let ghost rem0 = *remaining;
            self.fill_at_level(Side::Sell, best_bid, order.id, remaining, fills, Ghost(*order));
            let ghost fills1 = fills@;
            self.drop_level_if_empty(Side::Buy, best_bid);
            proof {
                assert(fills1.subrange(0, n0) =~= fills0.subrange(0, n0));
                assert(fills1.subrange(n0, fills1.len() as int) =~= fills0.subrange(n0, fills0.len() as int)
                    + fills1.subrange(fills0.len() as int, fills1.len() as int));
            }
        }
        proof {
            crate::model::lemma_sweep_stop(self@, *order, *remaining as nat);
            assert(fills@.subrange(n0, fills@.len() as int) + Seq::<Fill>::empty() =~= fills@.subrange(n0, fills@.len() as int));
            assert(fills@ =~= fills@.subrange(0, n0) + fills@.subrange(n0, fills@.len() as int));
        }
    }

    /// Submit an order. Fills are appended to the caller-owned buffer.
    pub fn add_order(&mut self, order: Order, fills: &mut Vec<Fill>)
        requires
            old(self).wf(),
            old(self).nodes_in_use() < INVALID,
        ensures
            final(self).wf(),
            final(self)@ == submit(old(self)@, order).0,
            final(fills)@ == old(fills)@ + submit(old(self)@, order).1,
            final(self).nodes_in_use() <= old(self).nodes_in_use() + (if crate::model::rests(
                old(self)@,
                order,
            ) {
                1int
            } else {
                0int
            }),
    {
        let mut remaining = order.qty;
        match order.side {
            Side::Buy => self.match_buy(&order, &mut remaining, fills),
            Side::Sell => self.match_sell(&order, &mut remaining, fills),
        }
        if remaining > 0 && order.order_type == OrderType::Limit {
            self.place(order.id, order.side, order.price, remaining);
        }
    }
}


impl Default for OrderBook {
    fn default() -> (b: Self)
        ensures
            b.wf(),
            b@ == BookView::empty(),
            b.nodes_in_use() == 0,
    {
        Self::new()
    }
}


impl OrderBook {
    /// A well-formed book has a well-formed view.
    pub proof fn lemma_wf_view(&self)
        requires
            self.wf(),
        ensures
            self@.wf(),
    {
        self.lemma_view_wf();
    }
}

} // verus!
