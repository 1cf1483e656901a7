//! Simulated target exchange for stale-quote arbitrage.
//!
//! `reference_mid` is the leading fair value. The target order book
//! reprices after a short delay, leaving executable stale quotes for
//! low-latency traders to race for.
use vstd::prelude::*;
use crate::laws::{
    entries_within, fills_qty, law_sweep_accounting, lemma_submit_prices, lemma_sweep_prices, prices_within,
    law_cancel_uncrossed, law_ioc_leaves_no_rest, law_submit_uncrossed, uncrossed, lemma_level_qty_within, lemma_submit_within,
    lemma_sweep_within, lemma_within_weaken,
};
use crate::model::{cancel_spec, submit, sweep, BookView};
use crate::orderbook::OrderBook;
use crate::types::{Fill, Order, OrderId, OrderType, Price, Qty, Side};

verus! {

pub const INITIAL_MID: Price = 10_000;

pub const HALF_SPREAD: Price = 1;

pub const LEVELS: Price = 8;

pub const TOP_LEVEL_QTY: Qty = 1;

pub const DEEP_LEVEL_QTY: Qty = 250;

/// How far the reference price moves at each event.
pub const REFERENCE_JUMP: Price = 6;

/// The id given to the first order the exchange places.
pub const FIRST_ORDER_ID: OrderId = 1_000_000;

pub const BOOK_CAPACITY: usize = 2_000;

pub const DEFAULT_REFERENCE_EVENT_INTERVAL: u64 = 50;

pub const DEFAULT_REPRICE_DELAY: u64 = 10;

/// The highest price the exchange ever quotes.
pub const MAX_PRICE: Price = 10_014;

/// The most orders that rest on the book at any time.
pub const MAX_RESTING: u64 = 17;

/// Top of book snapshot, with the reference price.
#[derive(Debug, Clone, Copy)]
pub struct L1 {
    pub tick: u64,
    pub reference_mid: Price,
    pub bid: Price,
    pub ask: Price,
    pub bid_qty: Qty,
    pub ask_qty: Qty,
}

impl L1 {
    pub open spec fn spec_valid(self) -> bool {
        self.bid > 0 && self.ask > 0 && self.ask > self.bid
    }

    /// Both sides are quoted and the quotes do not cross.
    pub fn valid(&self) -> (b: bool)
        ensures
            b == self.spec_valid(),
    {
        self.bid > 0 && self.ask > 0 && self.ask > self.bid
    }
}

/// What an immediate-or-cancel order got: its fills and, when it went for
/// the open stale quote, how that attempt ended.
#[derive(Debug, Clone)]
pub struct IocResult {
    pub fills: Vec<Fill>,
    pub stale_outcome: Option<StaleOutcome>,
}

/// An attempt on the stale quote of one reference event.
#[derive(Debug, Clone, Copy)]
pub struct StaleOutcome {
    pub event_id: u64,
    pub side: Side,
    pub price: Price,
    pub filled: bool,
    pub arrival_lag_ticks: u64,
}

/// The quote left behind at the old price after a reference event.
/// `side` is the side a trader must take to hit it.
#[derive(Debug, Clone, Copy)]
pub struct StaleQuote {
    pub event_id: u64,
    pub side: Side,
    pub price: Price,
    pub event_tick: u64,
    pub active: bool,
}

#[derive(Debug, Clone, Copy)]
pub struct SimExchangeConfig {
    pub reference_event_interval: u64,
    pub reprice_delay: u64,
}

impl Default for SimExchangeConfig {
    fn default() -> (c: Self)
        ensures
            c.reference_event_interval == DEFAULT_REFERENCE_EVENT_INTERVAL,
            c.reprice_delay == DEFAULT_REPRICE_DELAY,
    {
        Self {
            reference_event_interval: DEFAULT_REFERENCE_EVENT_INTERVAL,
            reprice_delay: DEFAULT_REPRICE_DELAY,
        }
    }
}

/// The bid price `offset` ticks below `mid`, never below 1.
pub open spec fn bid_price(mid: u64, offset: u64) -> u64 {
    if mid > offset {
        (mid - offset) as u64
    } else {
        1
    }
}

/// The price `offset` ticks away from `mid` on the passive side `side`.
pub open spec fn level_price(side: Side, mid: u64, offset: u64) -> u64 {
    match side {
        Side::Buy => bid_price(mid, offset),
        Side::Sell => (mid + offset) as u64,
    }
}

/// The state of the simulated exchange.
pub struct ExchangeView {
    pub book: BookView,
    pub next_id: u64,
    pub tick: u64,
    pub reference_mid: u64,
    pub target_mid: u64,
    pub last_reference_jump_tick: u64,
    pub ticks_to_next_event: u64,
    pub next_event_side: Side,
    pub price_low: u64,
    pub price_high: u64,
    pub num_events: u64,
    pub expired_stale_quotes: u64,
    pub stale_quote: Option<StaleQuote>,
    pub debug_stale_quotes: bool,
    pub config: SimExchangeConfig,
}

impl ExchangeView {
    /// A fresh exchange: an empty book about to be quoted around the
    /// initial mid, no events yet.
    pub open spec fn start(config: SimExchangeConfig) -> ExchangeView {
        ExchangeView {
            book: BookView::empty(),
            next_id: FIRST_ORDER_ID,
            tick: 0,
            reference_mid: INITIAL_MID,
            target_mid: INITIAL_MID,
            last_reference_jump_tick: 0,
            ticks_to_next_event: (config.reference_event_interval - 1) as u64,
            next_event_side: Side::Buy,
            price_low: INITIAL_MID,
            price_high: INITIAL_MID,
            num_events: 0,
            expired_stale_quotes: 0,
            stale_quote: None,
            debug_stale_quotes: false,
            config,
        }
    }

    /// The exchange as `with_config` builds it.
    pub open spec fn initial(config: SimExchangeConfig) -> ExchangeView {
        ExchangeView::start(config).rebuild_book(INITIAL_MID)
    }

    pub open spec fn with_book(self, book: BookView) -> ExchangeView {
        ExchangeView { book, ..self }
    }

    /// Submits a limit order for `qty` lots at `price` under the next id.
    pub open spec fn place_liquidity(self, side: Side, price: u64, qty: u64) -> ExchangeView {
        ExchangeView {
            book: submit(
                self.book,
                Order { id: self.next_id, side, price, qty, order_type: OrderType::Limit },
            ).0,
            next_id: (self.next_id + 1) as u64,
            ..self
        }
    }

    /// Deep liquidity on side `side` at offsets `1..=n` from `mid`.
    pub open spec fn place_side_upto(self, side: Side, mid: u64, n: nat) -> ExchangeView
        decreases n,
    {
        if n == 0 {
            self
        } else {
            self.place_side_upto(side, mid, (n - 1) as nat).place_liquidity(
                side,
                level_price(side, mid, n as u64),
                DEEP_LEVEL_QTY,
            )
        }
    }

    /// Deep liquidity on side `side` at every level around `mid`.
    pub open spec fn place_side(self, side: Side, mid: u64) -> ExchangeView {
        self.place_side_upto(side, mid, LEVELS as nat)
    }

    /// Quotes on both sides at offsets `1..=n` from `mid`, bid first.
    pub open spec fn quote_both_upto(self, mid: u64, n: nat) -> ExchangeView
        decreases n,
    {
        if n == 0 {
            self
        } else {
            let qty = if n <= 10 {
                TOP_LEVEL_QTY
            } else {
                DEEP_LEVEL_QTY
            };
            self.quote_both_upto(mid, (n - 1) as nat).place_liquidity(
                Side::Buy,
                bid_price(mid, n as u64),
                qty,
            ).place_liquidity(Side::Sell, (mid + n) as u64, qty)
        }
    }

    /// A new book quoted around `mid`.
    pub open spec fn rebuild_book(self, mid: u64) -> ExchangeView {
        self.with_book(BookView::empty()).quote_both_upto(mid, LEVELS as nat)
    }

    /// A new book after a reference event: the side that the jump moved
    /// away from keeps its old prices, one quote is left behind at the old
    /// touch on the other side, and the rest of that side moves to the new
    /// mid.
    pub open spec fn rebuild_with_stale_quote(self, old_mid: u64, new_mid: u64, jump_side: Side) -> ExchangeView {
        let event_id = self.num_events;
        let e = self.with_book(BookView::empty());
        match jump_side {
            Side::Buy => {
                let stale_price = (old_mid + HALF_SPREAD) as u64;
                let e1 = e.place_side(Side::Buy, old_mid).place_liquidity(
                    Side::Sell,
                    stale_price,
                    TOP_LEVEL_QTY,
                ).place_side(Side::Sell, new_mid);
                ExchangeView {
                    stale_quote: Some(
                        StaleQuote {
                            event_id,
                            side: Side::Buy,
                            price: stale_price,
                            event_tick: self.tick,
                            active: true,
                        },
                    ),
                    ..e1
                }
            },
            Side::Sell => {
                let stale_price = bid_price(old_mid, HALF_SPREAD);
                let e1 = e.place_side(Side::Sell, old_mid).place_liquidity(
                    Side::Buy,
                    stale_price,
                    TOP_LEVEL_QTY,
                ).place_side(Side::Buy, new_mid);
                ExchangeView {
                    stale_quote: Some(
                        StaleQuote {
                            event_id,
                            side: Side::Sell,
                            price: stale_price,
                            event_tick: self.tick,
                            active: true,
                        },
                    ),
                    ..e1
                }
            },
        }
    }

    /// The reference price after a jump on `jump_side`.
    pub open spec fn jumped_mid(self, jump_side: Side) -> u64 {
        match jump_side {
            Side::Buy => (self.reference_mid + REFERENCE_JUMP) as u64,
            Side::Sell => {
                let down = if self.reference_mid > REFERENCE_JUMP {
                    (self.reference_mid - REFERENCE_JUMP) as u64
                } else {
                    0
                };
                if down > HALF_SPREAD + 1 {
                    down
                } else {
                    (HALF_SPREAD + 1) as u64
                }
            },
        }
    }

    /// Counts down to the next reference event; at the event the reference
    /// price jumps, alternately up and down, and the book is rebuilt with a
    /// stale quote.
    #[verifier::opaque]
    pub open spec fn advance_reference(self) -> ExchangeView {
        if self.ticks_to_next_event > 0 {
            ExchangeView { ticks_to_next_event: (self.ticks_to_next_event - 1) as u64, ..self }
        } else {
            let old_mid = self.target_mid;
            let jump_side = self.next_event_side;
            let new_mid = self.jumped_mid(jump_side);
            let e = ExchangeView {
                reference_mid: new_mid,
                next_event_side: match jump_side {
                    Side::Buy => Side::Sell,
                    Side::Sell => Side::Buy,
                },
                last_reference_jump_tick: self.tick,
                ticks_to_next_event: (self.config.reference_event_interval - 1) as u64,
                num_events: (self.num_events + 1) as u64,
                ..self
            };
            e.rebuild_with_stale_quote(old_mid, new_mid, jump_side)
        }
    }

    /// Once the repricing delay has passed since the last jump, the book
    /// follows the reference price and an open stale quote expires.
    #[verifier::opaque]
    pub open spec fn advance_target_book(self) -> ExchangeView {
        if self.target_mid == self.reference_mid {
            self
        } else if self.tick < self.last_reference_jump_tick + self.config.reprice_delay - 1 {
            self
        } else {
            let e = match self.stale_quote {
                Some(q) => if q.active {
                    ExchangeView {
                        expired_stale_quotes: (self.expired_stale_quotes + 1) as u64,
                        stale_quote: Some(StaleQuote { active: false, ..q }),
                        ..self
                    }
                } else {
                    self
                },
                None => self,
            };
            ExchangeView { target_mid: self.reference_mid, ..e }.rebuild_book(self.reference_mid)
        }
    }

    /// Best bid and ask with the quantity resting there, 0 for an empty side.
    pub open spec fn snapshot(self) -> L1 {
        let bid = match self.book.best(Side::Buy) {
            Some(p) => p,
            None => 0,
        };
        let ask = match self.book.best(Side::Sell) {
            Some(p) => p,
            None => 0,
        };
        L1 {
            tick: self.tick,
            reference_mid: self.reference_mid,
            bid,
            ask,
            bid_qty: if bid > 0 {
                self.book.level_qty(Side::Buy, bid) as u64
            } else {
                0
            },
            ask_qty: if ask > 0 {
                self.book.level_qty(Side::Sell, ask) as u64
            } else {
                0
            },
        }
    }

    /// One tick: the reference may jump, the book may reprice, and the
    /// observed price range widens to take in both mids. Returns the
    /// snapshot taken before the range is updated.
    pub open spec fn step(self) -> (ExchangeView, L1) {
        let e = ExchangeView { tick: (self.tick + 1) as u64, ..self }.advance_reference().advance_target_book();
        let snap = e.snapshot();
        let low1 = if e.reference_mid < e.price_low {
            e.reference_mid
        } else {
            e.price_low
        };
        let low = if e.target_mid < low1 {
            e.target_mid
        } else {
            low1
        };
        let high1 = if e.reference_mid > e.price_high {
            e.reference_mid
        } else {
            e.price_high
        };
        let high = if e.target_mid > high1 {
            e.target_mid
        } else {
            high1
        };
        (ExchangeView { price_low: low, price_high: high, ..e }, snap)
    }

    /// An order on `side` at `price` goes for the open stale quote when it
    /// takes the quote's side at a price that reaches it.
    pub open spec fn stale_attempt(self, side: Side, price: u64) -> Option<StaleOutcome> {
        match self.stale_quote {
            None => None,
            Some(q) => if !q.active {
                None
            } else {
                let crosses = match side {
                    Side::Buy => price >= q.price,
                    Side::Sell => price <= q.price,
                };
                if side != q.side || !crosses {
                    None
                } else {
                    Some(
                        StaleOutcome {
                            event_id: q.event_id,
                            side: q.side,
                            price: q.price,
                            filled: false,
                            arrival_lag_ticks: if self.tick >= q.event_tick {
                                (self.tick - q.event_tick) as u64
                            } else {
                                0
                            },
                        },
                    )
                }
            },
        }
    }

    /// Whether the stale quote is open and one of `fills` is at its price.
    pub open spec fn stale_fill_matched(self, fills: Seq<Fill>) -> bool {
        match self.stale_quote {
            None => false,
            Some(q) => q.active && exists|i: int| 0 <= i < fills.len() && #[trigger] fills[i].price == q.price,
        }
    }

    /// The exchange after an immediate-or-cancel limit order, its fills and
    /// the outcome of its attempt on the stale quote. The order is submitted
    /// under the next id and whatever rests of it is cancelled at once; a
    /// fill at the stale price closes the stale quote.
    pub open spec fn ioc(self, side: Side, price: u64, qty: u64) -> (ExchangeView, Seq<Fill>, Option<StaleOutcome>) {
        let attempt = self.stale_attempt(side, price);
        let id = self.next_id;
        let sub = submit(self.book, Order { id, side, price, qty, order_type: OrderType::Limit });
        let fills = sub.1;
        let e = ExchangeView { book: cancel_spec(sub.0, id).0, next_id: (self.next_id + 1) as u64, ..self };
        match attempt {
            None => (e, fills, None),
            Some(out) => if e.stale_fill_matched(fills) {
                let closed = match e.stale_quote {
                    Some(q) => Some(StaleQuote { active: false, ..q }),
                    None => None,
                };
                (ExchangeView { stale_quote: closed, ..e }, fills, Some(StaleOutcome { filled: true, ..out }))
            } else {
                (e, fills, Some(out))
            },
        }
    }

    /// The exchange after a market order under the next id, and its fills.
    pub open spec fn market(self, side: Side, qty: u64) -> (ExchangeView, Seq<Fill>) {
        let sub = submit(
            self.book,
            Order { id: self.next_id, side, price: 0, qty, order_type: OrderType::Market },
        );
        (ExchangeView { book: sub.0, next_id: (self.next_id + 1) as u64, ..self }, sub.1)
    }

    /// The counters can take one more tick without passing `u64::MAX`.
    pub open spec fn step_fits(self) -> bool {
        &&& self.tick + 1 + self.config.reprice_delay <= u64::MAX
        &&& self.next_id + 4 * LEVELS + 1 <= u64::MAX
        &&& self.num_events < u64::MAX
        &&& self.expired_stale_quotes < u64::MAX
    }
}


/// Simulated target exchange for stale-quote arbitrage.
pub struct SimExchange {
    book: OrderBook,
    next_id: OrderId,
    tick: u64,
    reference_mid: Price,
    target_mid: Price,
    last_reference_jump_tick: u64,
    ticks_to_next_event: u64,
    next_event_side: Side,
    price_low: Price,
    price_high: Price,
    pub num_events: u64,
    expired_stale_quotes: u64,
    stale_quote: Option<StaleQuote>,
    debug_stale_quotes: bool,
    config: SimExchangeConfig,
}

impl View for SimExchange {
    type V = ExchangeView;

    closed spec fn view(&self) -> ExchangeView {
        ExchangeView {
            book: self.book@,
            next_id: self.next_id,
            tick: self.tick,
            reference_mid: self.reference_mid,
            target_mid: self.target_mid,
            last_reference_jump_tick: self.last_reference_jump_tick,
            ticks_to_next_event: self.ticks_to_next_event,
            next_event_side: self.next_event_side,
            price_low: self.price_low,
            price_high: self.price_high,
            num_events: self.num_events,
            expired_stale_quotes: self.expired_stale_quotes,
            stale_quote: self.stale_quote,
            debug_stale_quotes: self.debug_stale_quotes,
            config: self.config,
        }
    }
}

impl ExchangeView {
    /// 1 while the stale quote of the last event is still open, else 0.
    pub open spec fn open_stale(self) -> nat {
        match self.stale_quote {
            Some(q) => if q.active {
                1
            } else {
                0
            },
            None => 0,
        }
    }
}

/// An immediate-or-cancel order goes for the open stale quote exactly when
/// it takes the quote's side at a limit that reaches the quote's price (at
/// or above it for a buy, at or below it for a sell); the outcome then names
/// the quote's event, side and price and how long ago the event was, and
/// it is a fill exactly when one of the order's fills is at the quote's
/// price, which closes the quote. Otherwise the stale quote is left as it
/// was.
pub proof fn law_ioc_stale_outcome(e: ExchangeView, side: Side, price: u64, qty: u64)
    ensures
        ({
            let (e2, fs, st) = e.ioc(side, price, qty);
            let reaches = match e.stale_quote {
                Some(q) => q.active && side == q.side && (if side == Side::Buy {
                    price >= q.price
                } else {
                    price <= q.price
                }),
                None => false,
            };
            &&& (st is Some) == reaches
            &&& st matches Some(o) ==> {
                &&& e.stale_quote matches Some(q)
                &&& o.event_id == q.event_id
                &&& o.side == q.side
                &&& o.price == q.price
                &&& o.arrival_lag_ticks == (if e.tick >= q.event_tick {
                    e.tick - q.event_tick
                } else {
                    0
                })
                &&& o.filled == (exists|i: int| 0 <= i < fs.len() && #[trigger] fs[i].price == q.price)
            }
            &&& (st matches Some(o) && o.filled) ==> e2.open_stale() == 0
            &&& !(st matches Some(o) && o.filled) ==> e2.stale_quote == e.stale_quote
        }),
{
}

/// The countdown to the next reference event stays in step with the tick:
/// the next event comes at the next tick that is a multiple of the interval.
proof fn lemma_countdown(t: int, c: int, i: int)
    requires
        t >= 0,
        i > 0,
        0 <= c < i,
        (t + c + 1) % i == 0,
    ensures
        ((t + 1) % i == 0) == (c == 0),
        c == 0 ==> (t + 1 + (i - 1) + 1) % i == 0,
{
    assert(((t + 1) % i == 0) == (c == 0)) by (nonlinear_arith)
        requires
            t >= 0,
            i > 0,
            0 <= c < i,
            (t + c + 1) % i == 0,
    ;
    assert(c == 0 ==> (t + 1 + (i - 1) + 1) % i == 0) by (nonlinear_arith)
        requires
            t >= 0,
            i > 0,
            (t + c + 1) % i == 0,
    ;
}

impl SimExchange {
    /// The book is well formed and small, every resting order has an id
    /// below the next one, the configured intervals are positive, and the
    /// reference price stays near the initial mid: it alternates between
    /// jumping up and jumping down by the same amount.
    closed spec fn core_ok(&self) -> bool {
        &&& self.book.wf()
        &&& self.book.nodes_in_use() <= MAX_RESTING
        &&& uncrossed(self.book@)
        &&& prices_within(self.book@, MAX_PRICE)
        &&& entries_within(self.book@, self.next_id, DEEP_LEVEL_QTY, MAX_RESTING as nat)
        &&& self.config.reference_event_interval > 0
        &&& self.config.reprice_delay > 0
        &&& self.reference_mid <= INITIAL_MID + REFERENCE_JUMP
        &&& self.target_mid <= INITIAL_MID + REFERENCE_JUMP
        &&& (self.next_event_side == Side::Buy ==> self.reference_mid <= INITIAL_MID)
        &&& (self.next_event_side == Side::Buy && self.reference_mid == INITIAL_MID) || (
        self.next_event_side == Side::Sell && self.reference_mid == INITIAL_MID + REFERENCE_JUMP)
        &&& self.last_reference_jump_tick <= self.tick
    }

    /// `core_ok`, and between ticks: the observed price range holds both
    /// mids, every expired stale quote and the open one came from its own
    /// reference event, the countdown to the next event is in step with
    /// the tick, and the stale quote is the one of the last event, no more
    /// than an interval old.
    pub closed spec fn wf(&self) -> bool {
        &&& self.core_ok()
        &&& self.price_low <= self.reference_mid <= self.price_high
        &&& self.price_low <= self.target_mid <= self.price_high
        &&& self.expired_stale_quotes + self@.open_stale() <= self.num_events
        &&& self.ticks_to_next_event < self.config.reference_event_interval
        &&& (self.tick + self.ticks_to_next_event + 1) % (self.config.reference_event_interval as int) == 0
        &&& self.stale_quote matches Some(q) ==> {
            &&& q.event_tick == self.last_reference_jump_tick
            &&& self.tick - self.last_reference_jump_tick + self.ticks_to_next_event + 1
                == self.config.reference_event_interval
        }
    }

    fn alloc_id(&mut self) -> (id: OrderId)
        requires
            old(self).next_id < u64::MAX,
        ensures
            id == old(self).next_id,
            final(self)@ == (ExchangeView { next_id: (old(self).next_id + 1) as u64, ..old(self)@ }),
            final(self).book == old(self).book,
            final(self).next_id == old(self).next_id + 1,
    {
        let id = self.next_id;
        self.next_id = self.next_id + 1;
        id
    }

    fn place_liquidity(&mut self, side: Side, price: Price, qty: Qty, Ghost(ml): Ghost<nat>)
        requires
            old(self).book.wf(),
            old(self).book.nodes_in_use() < MAX_RESTING,
            old(self).next_id < u64::MAX,
            entries_within(old(self).book@, old(self).next_id, DEEP_LEVEL_QTY, ml),
            qty <= DEEP_LEVEL_QTY,
            uncrossed(old(self).book@),
            prices_within(old(self).book@, MAX_PRICE),
            price <= MAX_PRICE,
        ensures
            final(self)@ == old(self)@.place_liquidity(side, price, qty),
            final(self).book.wf(),
            uncrossed(final(self).book@),
            prices_within(final(self).book@, MAX_PRICE),
            final(self).book.nodes_in_use() <= old(self).book.nodes_in_use() + 1,
            entries_within(final(self).book@, final(self).next_id, DEEP_LEVEL_QTY, ml + 1),
            final(self).next_id == old(self).next_id + 1,
    {
        let id = self.alloc_id();
        let mut fills: Vec<Fill> = Vec::new();
        let o = Order { id, side, price, qty, order_type: OrderType::Limit };
        let ghost v0 = self.book@;
        proof {
            lemma_within_weaken(v0, id, self.next_id, DEEP_LEVEL_QTY, ml, ml);
            self.book.lemma_wf_view();
            law_submit_uncrossed(v0, o);
            lemma_submit_prices(v0, o, MAX_PRICE);
        }
        self.book.add_order(o, &mut fills);
        proof {
            lemma_submit_within(v0, o, self.next_id, DEEP_LEVEL_QTY, ml);
        }
    }

    fn place_side(&mut self, side: Side, mid: Price, Ghost(ml): Ghost<nat>)
        requires
            old(self).book.wf(),
            old(self).book.nodes_in_use() + LEVELS <= MAX_RESTING,
            old(self).next_id + LEVELS <= u64::MAX,
            mid + LEVELS <= MAX_PRICE,
            entries_within(old(self).book@, old(self).next_id, DEEP_LEVEL_QTY, ml),
            uncrossed(old(self).book@),
            prices_within(old(self).book@, MAX_PRICE),
        ensures
            uncrossed(final(self).book@),
            prices_within(final(self).book@, MAX_PRICE),
            final(self)@ == old(self)@.place_side(side, mid),
            final(self)@ == (ExchangeView { book: final(self)@.book, next_id: final(self).next_id, ..old(self)@ }),
            final(self).book.wf(),
            final(self).book.nodes_in_use() <= old(self).book.nodes_in_use() + LEVELS,
            entries_within(final(self).book@, final(self).next_id, DEEP_LEVEL_QTY, (ml + LEVELS) as nat),
            final(self).next_id == old(self).next_id + LEVELS,
    {
        let ghost e0 = self@;
        let ghost n0 = self.book.nodes_in_use();
        let mut offset: u64 = 1;
        while offset <= LEVELS
            invariant
                1 <= offset <= LEVELS + 1,
                self@ == e0.place_side_upto(side, mid, (offset - 1) as nat),
                self@ == (ExchangeView { book: self@.book, next_id: self.next_id, ..e0 }),
                self.book.wf(),
                uncrossed(self.book@),
                prices_within(self.book@, MAX_PRICE),
                self.book.nodes_in_use() <= n0 + (offset - 1),
                n0 + LEVELS <= MAX_RESTING,
                entries_within(self.book@, self.next_id, DEEP_LEVEL_QTY, (ml + (offset - 1)) as nat),
                self.next_id == e0.next_id + (offset - 1),
                e0.next_id + LEVELS <= u64::MAX,
                mid + LEVELS <= MAX_PRICE,
            decreases LEVELS + 1 - offset,
        {
            let price = match side {
                Side::Buy => {
                    let down = mid.saturating_sub(offset);
                    if down > 1 {
                        down
                    } else {
                        1
                    }
                },
                Side::Sell => mid + offset,
            };
            self.place_liquidity(side, price, DEEP_LEVEL_QTY, Ghost(ml + (offset - 1) as nat));
            offset = offset + 1;
        }
    }

    fn rebuild_book(&mut self, mid: Price)
        requires
            old(self).next_id + 2 * LEVELS <= u64::MAX,
            mid + LEVELS <= MAX_PRICE,
        ensures
            uncrossed(final(self).book@),
            prices_within(final(self).book@, MAX_PRICE),
            final(self)@ == old(self)@.rebuild_book(mid),
            final(self)@ == (ExchangeView { book: final(self)@.book, next_id: final(self).next_id, ..old(self)@ }),
            final(self).book.wf(),
            final(self).book.nodes_in_use() <= 2 * LEVELS,
            entries_within(final(self).book@, final(self).next_id, DEEP_LEVEL_QTY, (2 * LEVELS) as nat),
            final(self).next_id == old(self).next_id + 2 * LEVELS,
    {
        self.book = OrderBook::with_capacity(BOOK_CAPACITY);
        let ghost e0 = self@;
        assert(e0 == old(self)@.with_book(BookView::empty()));
        let mut offset: u64 = 1;
        while offset <= LEVELS
            invariant
                1 <= offset <= LEVELS + 1,
                self@ == e0.quote_both_upto(mid, (offset - 1) as nat),
                self@ == (ExchangeView { book: self@.book, next_id: self.next_id, ..e0 }),
                self.book.wf(),
                uncrossed(self.book@),
                prices_within(self.book@, MAX_PRICE),
                self.book.nodes_in_use() <= 2 * (offset - 1),
                entries_within(self.book@, self.next_id, DEEP_LEVEL_QTY, (2 * (offset - 1)) as nat),
                self.next_id == e0.next_id + 2 * (offset - 1),
                e0.next_id + 2 * LEVELS <= u64::MAX,
                mid + LEVELS <= MAX_PRICE,
            decreases LEVELS + 1 - offset,
        {
            let down = mid.saturating_sub(offset);
            let bid_price = if down > 1 {
                down
            } else {
                1
            };
            let ask_price = mid + offset;
            let qty = if offset <= 10 {
                TOP_LEVEL_QTY
            } else {
                DEEP_LEVEL_QTY
            };
            self.place_liquidity(Side::Buy, bid_price, qty, Ghost((2 * (offset - 1)) as nat));
            self.place_liquidity(Side::Sell, ask_price, qty, Ghost((2 * (offset - 1) + 1) as nat));
            offset = offset + 1;
        }
    }

    fn rebuild_book_with_stale_quote(&mut self, old_mid: Price, new_mid: Price, jump_side: Side)
        requires
            old(self).next_id + 2 * LEVELS + 1 <= u64::MAX,
            old_mid + LEVELS <= MAX_PRICE,
            new_mid + LEVELS <= MAX_PRICE,
        ensures
            uncrossed(final(self).book@),
            prices_within(final(self).book@, MAX_PRICE),
            final(self)@ == old(self)@.rebuild_with_stale_quote(old_mid, new_mid, jump_side),
            final(self)@ == (ExchangeView {
                book: final(self)@.book,
                next_id: final(self).next_id,
                stale_quote: final(self).stale_quote,
                ..old(self)@
            }),
            final(self).book.wf(),
            final(self).book.nodes_in_use() <= MAX_RESTING,
            entries_within(final(self).book@, final(self).next_id, DEEP_LEVEL_QTY, MAX_RESTING as nat),
            final(self).next_id == old(self).next_id + 2 * LEVELS + 1,
    {
        self.book = OrderBook::with_capacity(BOOK_CAPACITY);
        let event_id = self.num_events;
        match jump_side {
            Side::Buy => {
                self.place_side(Side::Buy, old_mid, Ghost(0));
                let stale_price = old_mid + HALF_SPREAD;
                self.place_liquidity(Side::Sell, stale_price, TOP_LEVEL_QTY, Ghost(LEVELS as nat));
                self.place_side(Side::Sell, new_mid, Ghost((LEVELS + 1) as nat));
                self.stale_quote = Some(
                    StaleQuote {
                        event_id,
                        side: Side::Buy,
                        price: stale_price,
                        event_tick: self.tick,
                        active: true,
                    },
                );
            },
            Side::Sell => {
                self.place_side(Side::Sell, old_mid, Ghost(0));
                let down = old_mid.saturating_sub(HALF_SPREAD);
                let stale_price = if down > 1 {
                    down
                } else {
                    1
                };
                self.place_liquidity(Side::Buy, stale_price, TOP_LEVEL_QTY, Ghost(LEVELS as nat));
                self.place_side(Side::Buy, new_mid, Ghost((LEVELS + 1) as nat));
                self.stale_quote = Some(
                    StaleQuote {
                        event_id,
                        side: Side::Sell,
                        price: stale_price,
                        event_tick: self.tick,
                        active: true,
                    },
                );
            },
        }
    }

    fn advance_reference(&mut self)
        requires
            old(self).core_ok(),
            old(self).next_id + 2 * LEVELS + 1 <= u64::MAX,
            old(self).num_events < u64::MAX,
        ensures
            final(self).core_ok(),
            final(self).num_events == old(self).num_events + (if old(self).ticks_to_next_event == 0 {
                1int
            } else {
                0int
            }),
            final(self).ticks_to_next_event == (if old(self).ticks_to_next_event == 0 {
                (old(self).config.reference_event_interval - 1) as u64
            } else {
                (old(self).ticks_to_next_event - 1) as u64
            }),
            final(self).expired_stale_quotes + final(self)@.open_stale() <= old(self).expired_stale_quotes
                + old(self)@.open_stale() + (final(self).num_events - old(self).num_events),
            final(self).price_low == old(self).price_low,
            final(self).price_high == old(self).price_high,
            final(self)@ == old(self)@.advance_reference(),
            final(self).next_id <= old(self).next_id + 2 * LEVELS + 1,
            final(self).num_events <= old(self).num_events + 1,
            final(self).tick == old(self).tick,
            final(self).expired_stale_quotes == old(self).expired_stale_quotes,
            final(self).config == old(self).config,
            old(self).ticks_to_next_event == 0 ==> final(self).last_reference_jump_tick == old(self).tick,
            old(self).ticks_to_next_event == 0 ==> (final(self).stale_quote matches Some(q)
                && q.event_tick == old(self).tick),
            old(self).ticks_to_next_event != 0 ==> final(self).last_reference_jump_tick == old(self).last_reference_jump_tick,
            old(self).ticks_to_next_event != 0 ==> final(self).stale_quote == old(self).stale_quote,
            old(self).ticks_to_next_event != 0 ==> final(self).next_event_side == old(self).next_event_side
                && final(self).reference_mid == old(self).reference_mid,
            old(self).ticks_to_next_event == 0 ==> final(self).next_event_side != old(self).next_event_side,
            old(self).ticks_to_next_event == 0 && old(self).next_event_side == Side::Buy ==> final(self).reference_mid == old(self).reference_mid + REFERENCE_JUMP,
            old(self).ticks_to_next_event == 0 && old(self).next_event_side == Side::Sell ==> final(self).reference_mid == old(self).reference_mid - REFERENCE_JUMP,
    {
        proof {
            reveal(ExchangeView::advance_reference);
        }
        if self.ticks_to_next_event > 0 {
            self.ticks_to_next_event = self.ticks_to_next_event - 1;
            return;
        }
        let old_mid = self.target_mid;
        let jump = REFERENCE_JUMP;
        let jump_side = self.next_event_side;
        match jump_side {
            Side::Buy => {
                self.reference_mid = self.reference_mid + jump;
                self.next_event_side = Side::Sell;
            },
            Side::Sell => {
                let down = self.reference_mid.saturating_sub(jump);
                self.reference_mid = if down > HALF_SPREAD + 1 {
                    down
                } else {
                    HALF_SPREAD + 1
                };
                self.next_event_side = Side::Buy;
            },
        }
        self.last_reference_jump_tick = self.tick;
        self.ticks_to_next_event = self.config.reference_event_interval - 1;
        self.num_events = self.num_events + 1;
        let new_mid = self.reference_mid;
        self.rebuild_book_with_stale_quote(old_mid, new_mid, jump_side);
    }

    fn advance_target_book(&mut self)
        requires
            old(self).core_ok(),
            old(self).next_id + 2 * LEVELS <= u64::MAX,
            old(self).expired_stale_quotes < u64::MAX,
            old(self).tick + old(self).config.reprice_delay <= u64::MAX,
        ensures
            final(self).core_ok(),
            final(self).ticks_to_next_event == old(self).ticks_to_next_event,
            final(self).reference_mid == old(self).reference_mid,
            final(self).price_low == old(self).price_low,
            final(self).price_high == old(self).price_high,
            final(self).expired_stale_quotes + final(self)@.open_stale() <= old(self).expired_stale_quotes
                + old(self)@.open_stale(),
            final(self)@ == old(self)@.advance_target_book(),
            final(self).next_id <= old(self).next_id + 2 * LEVELS,
            final(self).expired_stale_quotes <= old(self).expired_stale_quotes + 1,
            final(self).num_events == old(self).num_events,
            final(self).tick == old(self).tick,
            final(self).config == old(self).config,
            final(self).last_reference_jump_tick == old(self).last_reference_jump_tick,
            final(self).next_event_side == old(self).next_event_side,
            final(self).stale_quote is Some <==> old(self).stale_quote is Some,
            final(self).stale_quote matches Some(q) ==> (old(self).stale_quote matches Some(p)
                && p.event_tick == q.event_tick),
    {
        proof {
            reveal(ExchangeView::advance_target_book);
        }
        if self.target_mid == self.reference_mid {
            return;
        }
        if self.tick < self.last_reference_jump_tick + self.config.reprice_delay - 1 {
            return;
        }
        match self.stale_quote {
            Some(q) => {
                if q.active {
                    self.expired_stale_quotes = self.expired_stale_quotes + 1;
                    self.stale_quote = Some(StaleQuote { active: false, ..q });
                }
            },
            None => {},
        }
        self.target_mid = self.reference_mid;
        let mid = self.target_mid;
        self.rebuild_book(mid);
    }

    fn snapshot(&self) -> (l: L1)
        requires
            self.core_ok(),
        ensures
            l == self@.snapshot(),
            l.bid > 0 && l.ask > 0 ==> l.spec_valid(),
            l.bid <= MAX_PRICE && l.ask <= MAX_PRICE,
    {
        let bid = match self.book.best_bid() {
            Some(p) => p,
            None => 0,
        };
        let ask = match self.book.best_ask() {
            Some(p) => p,
            None => 0,
        };
        proof {
            assert(uncrossed(self.book@));
            self.book.lemma_wf_view();
            crate::laws::lemma_best(self.book@, Side::Buy);
            crate::laws::lemma_best(self.book@, Side::Sell);
            lemma_level_qty_within(self.book@, self.next_id, DEEP_LEVEL_QTY, MAX_RESTING as nat, Side::Buy, bid);
            lemma_level_qty_within(self.book@, self.next_id, DEEP_LEVEL_QTY, MAX_RESTING as nat, Side::Sell, ask);
        }
        let bid_qty = if bid > 0 {
            self.book.depth_at(Side::Buy, bid)
        } else {
            0
        };
        let ask_qty = if ask > 0 {
            self.book.depth_at(Side::Sell, ask)
        } else {
            0
        };
        L1 { tick: self.tick, reference_mid: self.reference_mid, bid, ask, bid_qty, ask_qty }
    }

    /// Advances one tick and returns the top of book as it then stands.
    #[verifier::spinoff_prover]
    #[verifier::rlimit(60)]
    pub fn step(&mut self) -> (l1: L1)
        requires
            old(self).wf(),
            old(self)@.step_fits(),
        ensures
            final(self).wf(),
            (final(self)@, l1) == old(self)@.step(),
            final(self)@.tick == old(self)@.tick + 1,
            final(self)@.next_id <= old(self)@.next_id + 4 * LEVELS + 1,
            final(self)@.num_events <= old(self)@.num_events + 1,
            final(self)@.expired_stale_quotes <= old(self)@.expired_stale_quotes + 1,
            final(self)@.config == old(self)@.config,
            uncrossed(final(self)@.book),
            l1.bid > 0 && l1.ask > 0 ==> l1.spec_valid(),
            l1.bid <= MAX_PRICE && l1.ask <= MAX_PRICE,
            l1.tick == final(self)@.tick,
            l1.reference_mid == final(self)@.reference_mid,
            final(self)@.price_low <= old(self)@.price_low,
            final(self)@.price_high >= old(self)@.price_high,
            final(self)@.price_low <= final(self)@.reference_mid <= final(self)@.price_high,
            final(self)@.expired_stale_quotes + final(self)@.open_stale() <= old(self)@.expired_stale_quotes
                + old(self)@.open_stale() + (final(self)@.num_events - old(self)@.num_events),
            final(self)@.num_events == old(self)@.num_events + (if (old(self)@.tick + 1) % (
            old(self)@.config.reference_event_interval as int) == 0 {
                1int
            } else {
                0int
            }),
            final(self)@.ticks_to_next_event == (if old(self)@.ticks_to_next_event == 0 {
                (old(self)@.config.reference_event_interval - 1) as u64
            } else {
                (old(self)@.ticks_to_next_event - 1) as u64
            }),
            old(self)@.ticks_to_next_event != 0 ==> final(self)@.reference_mid == old(self)@.reference_mid
                && final(self)@.next_event_side == old(self)@.next_event_side,
            old(self)@.ticks_to_next_event == 0 ==> final(self)@.next_event_side != old(self)@.next_event_side,
            old(self)@.ticks_to_next_event == 0 && old(self)@.next_event_side == Side::Buy ==> final(self)@.reference_mid == old(self)@.reference_mid + REFERENCE_JUMP,
            old(self)@.ticks_to_next_event == 0 && old(self)@.next_event_side == Side::Sell ==> final(self)@.reference_mid == old(self)@.reference_mid - REFERENCE_JUMP,
    {
        proof {
            lemma_countdown(
                self.tick as int,
                self.ticks_to_next_event as int,
                self.config.reference_event_interval as int,
            );
        }
        let ghost t0 = self.tick;
        let ghost c0 = self.ticks_to_next_event;
        let ghost j0 = self.last_reference_jump_tick;
        let ghost q0 = self.stale_quote;
        self.tick = self.tick + 1;
        self.advance_reference();
        proof {
            if c0 != 0 {
                assert(self.stale_quote == q0);
                if q0 is Some {
                    assert(self.tick - self.last_reference_jump_tick + self.ticks_to_next_event + 1
                        == self.config.reference_event_interval);
                }
            }
        }
        let ghost q1 = self.stale_quote;
        let ghost j1 = self.last_reference_jump_tick;
        let ghost c1 = self.ticks_to_next_event;
        self.advance_target_book();
        proof {
            assert(self.last_reference_jump_tick == j1 && self.ticks_to_next_event == c1);
            assert(q1 matches Some(q) ==> q.event_tick == j1 && self.tick - j1 + c1 + 1
                == self.config.reference_event_interval);
        }
        let snap = self.snapshot();
        let low1 = if self.reference_mid < self.price_low {
            self.reference_mid
        } else {
            self.price_low
        };
        self.price_low = if self.target_mid < low1 {
            self.target_mid
        } else {
            low1
        };
        let high1 = if self.reference_mid > self.price_high {
            self.reference_mid
        } else {
            self.price_high
        };
        self.price_high = if self.target_mid > high1 {
            self.target_mid
        } else {
            high1
        };
        snap
    }

    /// An exchange with the default event interval and repricing delay.
    pub fn new() -> (ex: Self)
        ensures
            ex.wf(),
            ex@ == ExchangeView::initial(
                SimExchangeConfig {
                    reference_event_interval: DEFAULT_REFERENCE_EVENT_INTERVAL,
                    reprice_delay: DEFAULT_REPRICE_DELAY,
                },
            ),
            ex@.tick == 0,
            ex@.next_id == FIRST_ORDER_ID + 2 * LEVELS,
            ex@.num_events == 0,
            ex@.expired_stale_quotes == 0,
            ex@.stale_quote is None,
            ex@.config.reference_event_interval == DEFAULT_REFERENCE_EVENT_INTERVAL,
            ex@.config.reprice_delay == DEFAULT_REPRICE_DELAY,
    {
        Self::with_config(SimExchangeConfig::default())
    }

    /// An exchange quoted around the initial mid. Both intervals must be
    /// positive.
    pub fn with_config(config: SimExchangeConfig) -> (ex: Self)
        requires
            config.reference_event_interval > 0,
            config.reprice_delay > 0,
        ensures
            ex.wf(),
            ex@ == ExchangeView::initial(config),
            ex@.tick == 0,
            ex@.next_id == FIRST_ORDER_ID + 2 * LEVELS,
            ex@.num_events == 0,
            ex@.expired_stale_quotes == 0,
            ex@.stale_quote is None,
            ex@.ticks_to_next_event == config.reference_event_interval - 1,
            ex@.config == config,
    {
        let mut ex = Self {
            book: OrderBook::with_capacity(BOOK_CAPACITY),
            next_id: FIRST_ORDER_ID,
            tick: 0,
            reference_mid: INITIAL_MID,
            target_mid: INITIAL_MID,
            last_reference_jump_tick: 0,
            ticks_to_next_event: config.reference_event_interval - 1,
            next_event_side: Side::Buy,
            price_low: INITIAL_MID,
            price_high: INITIAL_MID,
            num_events: 0,
            expired_stale_quotes: 0,
            stale_quote: None,
            debug_stale_quotes: false,
            config,
        };
        ex.rebuild_book(INITIAL_MID);
        ex
    }

    pub fn set_debug_stale_quotes(&mut self, enabled: bool)
        requires
            old(self).wf(),
        ensures
            final(self).wf(),
            final(self)@ == (ExchangeView { debug_stale_quotes: enabled, ..old(self)@ }),
    {
        self.debug_stale_quotes = enabled;
    }

    pub fn debug_stale_quotes_enabled(&self) -> (b: bool)
        ensures
            b == self@.debug_stale_quotes,
    {
        self.debug_stale_quotes
    }

    fn stale_attempt(&self, side: Side, price: Price) -> (r: Option<StaleOutcome>)
        ensures
            r == self@.stale_attempt(side, price),
    {
        let stale = match self.stale_quote {
            Some(q) => q,
            None => {
                return None;
            },
        };
        if !stale.active {
            return None;
        }
        let price_crosses = match side {
            Side::Buy => price >= stale.price,
            Side::Sell => price <= stale.price,
        };
        if side != stale.side || !price_crosses {
            return None;
        }
        Some(
            StaleOutcome {
                event_id: stale.event_id,
                side: stale.side,
                price: stale.price,
                filled: false,
                arrival_lag_ticks: self.tick.saturating_sub(stale.event_tick),
            },
        )
    }

    fn stale_fill_matched(&self, fills: &Vec<Fill>) -> (b: bool)
        ensures
            b == self@.stale_fill_matched(fills@),
    {
        let stale = match self.stale_quote {
            Some(q) => q,
            None => {
                return false;
            },
        };
        if !stale.active {
            return false;
        }
        let mut i: usize = 0;
        while i < fills.len()
            invariant
                0 <= i <= fills.len(),
                self.stale_quote == Some(stale),
                stale.active,
                forall|j: int| 0 <= j < i ==> #[trigger] fills@[j].price != stale.price,
            decreases fills.len() - i,
        {
            if fills[i].price == stale.price {
                assert(fills@[i as int].price == stale.price);
                return true;
            }
            i = i + 1;
        }
        false
    }

    /// Submits an immediate-or-cancel limit order: it trades what it can
    /// and the rest is cancelled. Reports its fills and, when it went for
    /// the open stale quote, whether it got it.
    pub fn submit_ioc_limit_at(&mut self, side: Side, price: Price, qty: Qty) -> (r: IocResult)
        requires
            old(self).wf(),
            old(self)@.next_id < u64::MAX,
        ensures
            final(self).wf(),
            (final(self)@, r.fills@, r.stale_outcome) == old(self)@.ioc(side, price, qty),
            final(self)@.book == sweep(old(self)@.book, Order { id: old(self)@.next_id, side, price, qty, order_type: OrderType::Limit }, qty as nat).0,
            fills_qty(r.fills@) <= qty,
            forall|i: int| 0 <= i < r.fills@.len() ==> #[trigger] r.fills@[i].price <= MAX_PRICE && r.fills@[i].qty > 0,
    {
        let stale_attempt = self.stale_attempt(side, price);
        let id = self.alloc_id();
        let mut fills: Vec<Fill> = Vec::new();
        let o = Order { id, side, price, qty, order_type: OrderType::Limit };
        let ghost v0 = self.book@;
        proof {
            self.book.lemma_wf_view();
            lemma_sweep_within(v0, o, qty as nat, id, DEEP_LEVEL_QTY, MAX_RESTING as nat);
            law_ioc_leaves_no_rest(v0, o, DEEP_LEVEL_QTY, MAX_RESTING as nat);
            law_submit_uncrossed(v0, o);
            lemma_sweep_prices(v0, o, qty as nat, MAX_PRICE);
            law_sweep_accounting(v0, o, qty as nat);
        }
        self.book.add_order(o, &mut fills);
        proof {
            self.book.lemma_wf_view();
            law_cancel_uncrossed(self.book@, id);
        }
        let _ = self.book.cancel(id);
        proof {
            lemma_within_weaken(self.book@, id, self.next_id, DEEP_LEVEL_QTY, MAX_RESTING as nat, MAX_RESTING as nat);
        }
        let stale_outcome = match stale_attempt {
            None => None,
            Some(outcome) => {
                let mut outcome = outcome;
                if self.stale_fill_matched(&fills) {
                    outcome.filled = true;
                    match self.stale_quote {
                        Some(q) => {
                            self.stale_quote = Some(StaleQuote { active: false, ..q });
                        },
                        None => {},
                    }
                }
                Some(outcome)
            },
        };
        IocResult { fills, stale_outcome }
    }

    /// Submits a market order; whatever does not trade is dropped.
    pub fn submit_market(&mut self, side: Side, qty: Qty) -> (fills: Vec<Fill>)
        requires
            old(self).wf(),
            old(self)@.next_id < u64::MAX,
        ensures
            final(self).wf(),
            (final(self)@, fills@) == old(self)@.market(side, qty),
            fills_qty(fills@) <= qty,
            forall|i: int| 0 <= i < fills@.len() ==> #[trigger] fills@[i].price <= MAX_PRICE && fills@[i].qty > 0,
    {
        let id = self.alloc_id();
        let mut fills: Vec<Fill> = Vec::new();
        let o = Order { id, side, price: 0, qty, order_type: OrderType::Market };
        let ghost v0 = self.book@;
        proof {
            lemma_sweep_within(v0, o, qty as nat, id, DEEP_LEVEL_QTY, MAX_RESTING as nat);
            lemma_within_weaken(sweep(v0, o, qty as nat).0, id, self.next_id, DEEP_LEVEL_QTY, MAX_RESTING as nat, MAX_RESTING as nat);
            self.book.lemma_wf_view();
            law_submit_uncrossed(v0, o);
            lemma_sweep_prices(v0, o, qty as nat, MAX_PRICE);
            law_sweep_accounting(v0, o, qty as nat);
        }
        self.book.add_order(o, &mut fills);
        fills
    }

    pub fn tick(&self) -> (t: u64)
        ensures
            t == self@.tick,
    {
        self.tick
    }

    pub fn reference_mid(&self) -> (p: Price)
        ensures
            p == self@.reference_mid,
    {
        self.reference_mid
    }

    /// The top of book as it stands, without advancing.
    pub fn debug_l1(&self) -> (l: L1)
        requires
            self.wf(),
        ensures
            l == self@.snapshot(),
            l.bid > 0 && l.ask > 0 ==> l.spec_valid(),
            l.bid <= MAX_PRICE && l.ask <= MAX_PRICE,
    {
        self.snapshot()
    }

    pub fn price_low(&self) -> (p: Price)
        ensures
            p == self@.price_low,
    {
        self.price_low
    }

    pub fn price_high(&self) -> (p: Price)
        ensures
            p == self@.price_high,
    {
        self.price_high
    }

    /// Number of reference events so far.
    pub fn stale_events(&self) -> (n: u64)
        ensures
            n == self@.num_events,
    {
        self.num_events
    }

    pub fn expired_stale_quotes(&self) -> (n: u64)
        ensures
            n == self@.expired_stale_quotes,
    {
        self.expired_stale_quotes
    }

    /// In a well-formed exchange the observed price range holds the
    /// reference price, and no more stale quotes have expired or are open
    /// than there were reference events.
    pub proof fn lemma_wf_ranges(&self)
        requires
            self.wf(),
        ensures
            self@.price_low <= self@.reference_mid <= self@.price_high,
            self@.expired_stale_quotes + self@.open_stale() <= self@.num_events,
    {
    }

    /// The countdown to the next reference event is in step with the tick:
    /// it is below the interval, and it runs out exactly at the next tick
    /// that is a multiple of the interval.
    pub proof fn lemma_wf_countdown(&self)
        requires
            self.wf(),
        ensures
            self@.ticks_to_next_event < self@.config.reference_event_interval,
            (self@.tick + self@.ticks_to_next_event + 1) % (self@.config.reference_event_interval as int)
                == 0,
    {
    }

    /// The stale quote of a well-formed exchange came from the last
    /// reference event, less than an interval ago.
    pub proof fn lemma_wf_stale_age(&self)
        requires
            self.wf(),
        ensures
            self@.stale_quote matches Some(q) ==> q.event_tick <= self@.tick && self@.tick - q.event_tick
                < self@.config.reference_event_interval,
    {
    }

    /// The reference price of a well-formed exchange moves only between the
    /// initial mid and one jump above it: the next reference event jumps up
    /// exactly when it stands at the initial mid, and down when it stands a
    /// jump above, so that consecutive events always move it in opposite
    /// directions and it never leaves
    /// `[INITIAL_MID - REFERENCE_JUMP, INITIAL_MID + REFERENCE_JUMP]`.
    pub proof fn law_reference_alternates(&self)
        requires
            self.wf(),
        ensures
            INITIAL_MID - REFERENCE_JUMP <= self@.reference_mid <= INITIAL_MID + REFERENCE_JUMP,
            self@.reference_mid == INITIAL_MID || self@.reference_mid == INITIAL_MID + REFERENCE_JUMP,
            (self@.next_event_side == Side::Buy) == (self@.reference_mid == INITIAL_MID),
            self@.next_event_side == Side::Sell ==> self@.reference_mid == INITIAL_MID + REFERENCE_JUMP,
    {
    }

    /// The book of a well-formed exchange is never crossed.
    pub proof fn lemma_wf_uncrossed(&self)
        requires
            self.wf(),
        ensures
            uncrossed(self@.book),
    {
    }

    /// Whether the counters can take one more tick: `step_fits`.
    pub fn can_step(&self) -> (b: bool)
        ensures
            b == self@.step_fits(),
    {
        self.tick < u64::MAX && self.config.reprice_delay <= u64::MAX - 1 - self.tick
            && self.next_id <= u64::MAX - (4 * LEVELS + 1) && self.num_events < u64::MAX
            && self.expired_stale_quotes < u64::MAX
    }

    /// Whether another order id can be given out.
    pub fn has_order_id(&self) -> (b: bool)
        ensures
            b == (self@.next_id < u64::MAX),
    {
        self.next_id < u64::MAX
    }

    /// The stale quote of the last reference event, if there was one.
    pub fn stale_quote(&self) -> (q: Option<StaleQuote>)
        ensures
            q == self@.stale_quote,
    {
        self.stale_quote
    }
}

} // verus!
