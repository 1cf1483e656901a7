//! A simulated trader: delayed market data in, delayed orders out, and the
//! account that its fills move.
use std::collections::VecDeque;
use vstd::prelude::*;
use crate::sim::exchange::L1;
use crate::sim::strategy::{Action, Strategy};
use crate::types::{Fill, Qty, Side};

verus! {

pub struct TraderConfig {
    pub name: String,
    pub md_latency: u64,
    pub order_latency: u64,
    pub max_position: i64,
}

pub struct Trader {
    pub config: TraderConfig,
    pub position: i64,
    pub cash: i64,
    pub num_buys: u64,
    pub num_sells: u64,
    pub total_buy_qty: Qty,
    pub total_sell_qty: Qty,
    pub total_buy_cost: i64,
    pub total_sell_proceeds: i64,
    pub missed_orders: u64,
    pub stale_fills: u64,
    pub stale_misses: u64,
    pub stale_decision_latency_ticks_sum: u64,
    pub stale_arrival_lag_ticks_sum: u64,
    pub strategy: Strategy,
    pub md_queue: VecDeque<(u64, L1)>,
    pub order_queue: VecDeque<(u64, Action, u64)>,
}

/// What a trader holds, as values: its settings, its account, its
/// strategy and both of its queues.
pub struct TraderState {
    pub name: Seq<char>,
    pub md_latency: u64,
    pub order_latency: u64,
    pub max_position: i64,
    pub position: i64,
    pub cash: i64,
    pub num_buys: u64,
    pub num_sells: u64,
    pub total_buy_qty: u64,
    pub total_sell_qty: u64,
    pub total_buy_cost: i64,
    pub total_sell_proceeds: i64,
    pub missed_orders: u64,
    pub stale_fills: u64,
    pub stale_misses: u64,
    pub stale_decision_latency_ticks_sum: u64,
    pub stale_arrival_lag_ticks_sum: u64,
    pub strategy: Strategy,
    pub md: Seq<(u64, L1)>,
    pub orders: Seq<(u64, Action, u64)>,
}

/// Number of leading snapshots of `q` that are delivered by tick `t`.
pub open spec fn md_arrived(q: Seq<(u64, L1)>, t: u64) -> nat
    decreases q.len(),
{
    if q.len() > 0 && q[0].0 <= t {
        1 + md_arrived(q.drop_first(), t)
    } else {
        0
    }
}

/// Number of leading orders of `q` that reach the exchange by tick `t`.
pub open spec fn orders_arrived(q: Seq<(u64, Action, u64)>, t: u64) -> nat
    decreases q.len(),
{
    if q.len() > 0 && q[0].0 <= t {
        1 + orders_arrived(q.drop_first(), t)
    } else {
        0
    }
}

/// `a - b`, floored at 0.
pub open spec fn sat_sub(a: u64, b: u64) -> u64 {
    if a >= b {
        (a - b) as u64
    } else {
        0
    }
}

/// Sum of the quantities of some fills.
pub open spec fn qty_sum(fs: Seq<Fill>) -> int
    decreases fs.len(),
{
    if fs.len() == 0 {
        0
    } else {
        qty_sum(fs.drop_last()) + fs.last().qty
    }
}

/// Sum of price times quantity over some fills.
pub open spec fn notional_sum(fs: Seq<Fill>) -> int
    decreases fs.len(),
{
    if fs.len() == 0 {
        0
    } else {
        notional_sum(fs.drop_last()) + fs.last().price * fs.last().qty
    }
}

proof fn lemma_sums_prefix(fs: Seq<Fill>, i: int)
    requires
        0 <= i <= fs.len(),
    ensures
        0 <= qty_sum(fs.take(i)) <= qty_sum(fs),
        0 <= notional_sum(fs.take(i)) <= notional_sum(fs),
    decreases fs.len(),
{
    if fs.len() > 0 {
        assert(0 <= fs.last().price * fs.last().qty) by (nonlinear_arith);
        if i < fs.len() {
            assert(fs.drop_last().take(i) =~= fs.take(i));
            lemma_sums_prefix(fs.drop_last(), i);
        } else {
            assert(fs.take(i) =~= fs);
            lemma_sums_prefix(fs.drop_last(), i - 1);
            assert(fs.drop_last().take(i - 1) =~= fs.drop_last());
        }
    } else {
        assert(fs.take(i) =~= fs);
    }
}

impl View for Trader {
    type V = TraderState;

    open spec fn view(&self) -> TraderState {
        TraderState {
            name: self.config.name@,
            md_latency: self.config.md_latency,
            order_latency: self.config.order_latency,
            max_position: self.config.max_position,
            position: self.position,
            cash: self.cash,
            num_buys: self.num_buys,
            num_sells: self.num_sells,
            total_buy_qty: self.total_buy_qty,
            total_sell_qty: self.total_sell_qty,
            total_buy_cost: self.total_buy_cost,
            total_sell_proceeds: self.total_sell_proceeds,
            missed_orders: self.missed_orders,
            stale_fills: self.stale_fills,
            stale_misses: self.stale_misses,
            stale_decision_latency_ticks_sum: self.stale_decision_latency_ticks_sum,
            stale_arrival_lag_ticks_sum: self.stale_arrival_lag_ticks_sum,
            strategy: self.strategy(),
            md: self.md(),
            orders: self.orders(),
        }
    }
}

/// One call on a trader, as its effect on the trader's state.
pub enum TraderEvent {
    QueueMd(u64, L1),
    ProcessMd(u64),
    Drain(u64),
    Miss,
    StaleOutcome(bool, u64, u64),
    Fills(Seq<Fill>, Side),
}

/// The trader after `events`, in order, starting from `t`.
pub open spec fn after_events(t: TraderState, events: Seq<TraderEvent>) -> TraderState
    decreases events.len(),
{
    if events.len() == 0 {
        t
    } else {
        let u = after_events(t, events.drop_last());
        match events.last() {
            TraderEvent::QueueMd(d, l1) => u.queued_md(d, l1),
            TraderEvent::ProcessMd(tick) => u.processed_md(tick),
            TraderEvent::Drain(tick) => u.drained(tick).0,
            TraderEvent::Miss => u.missed(),
            TraderEvent::StaleOutcome(filled, dl, lag) => u.stale_recorded(filled, dl, lag),
            TraderEvent::Fills(fs, side) => u.with_fills(fs, side),
        }
    }
}

/// How many fills the events hand the trader.
pub open spec fn fills_in(events: Seq<TraderEvent>) -> nat
    decreases events.len(),
{
    if events.len() == 0 {
        0
    } else {
        fills_in(events.drop_last()) + match events.last() {
            TraderEvent::Fills(fs, _) => fs.len(),
            _ => 0,
        }
    }
}

/// A trader's total trades, its buys plus its sells, are the number of
/// fills it was handed since it started, as long as that number fits in
/// a `u64`.
pub proof fn law_total_trades(t: TraderState, events: Seq<TraderEvent>)
    requires
        t.num_buys + t.num_sells + fills_in(events) <= u64::MAX,
    ensures
        after_events(t, events).num_buys + after_events(t, events).num_sells == t.num_buys + t.num_sells
            + fills_in(events),
    decreases events.len(),
{
    if events.len() > 0 {
        let d = events.drop_last();
        law_total_trades(t, d);
    }
}

impl TraderState {
    /// A new trader: flat, nothing queued.
    pub open spec fn start(name: Seq<char>, md_latency: u64, order_latency: u64, max_position: i64) -> TraderState {
        TraderState {
            name,
            md_latency,
            order_latency,
            max_position,
            position: 0,
            cash: 0,
            num_buys: 0,
            num_sells: 0,
            total_buy_qty: 0,
            total_sell_qty: 0,
            total_buy_cost: 0,
            total_sell_proceeds: 0,
            missed_orders: 0,
            stale_fills: 0,
            stale_misses: 0,
            stale_decision_latency_ticks_sum: 0,
            stale_arrival_lag_ticks_sum: 0,
            strategy: Strategy::initial(max_position),
            md: Seq::empty(),
            orders: Seq::empty(),
        }
    }

    /// A snapshot is queued for delivery at `delivery_tick`.
    pub open spec fn queued_md(self, delivery_tick: u64, l1: L1) -> TraderState {
        TraderState { md: self.md.push((delivery_tick, l1)), ..self }
    }

    /// The snapshots delivered by `tick` are taken; when some were and no
    /// order is waiting, the strategy decides on the latest, and a decision
    /// to trade queues an order that arrives after the order latency.
    pub open spec fn processed_md(self, tick: u64) -> TraderState {
        let k = md_arrived(self.md, tick);
        let orders = if k > 0 && self.orders.len() == 0 {
            match self.strategy.decide_spec(self.md[k - 1].1, self.position) {
                Some(a) => self.orders.push(
                    ((tick + self.order_latency) as u64, a, sat_sub(tick, self.md[k - 1].1.tick)),
                ),
                None => self.orders,
            }
        } else {
            self.orders
        };
        TraderState { md: self.md.skip(k as int), orders, ..self }
    }

    /// The orders that reach the exchange by `tick`, with their decision
    /// latencies, and the trader without them.
    pub open spec fn drained(self, tick: u64) -> (TraderState, Seq<(Action, u64)>) {
        let k = orders_arrived(self.orders, tick);
        (
            TraderState { orders: self.orders.skip(k as int), ..self },
            Seq::new(k, |i: int| (self.orders[i].1, self.orders[i].2)),
        )
    }

    /// An order that filled nothing.
    pub open spec fn missed(self) -> TraderState {
        TraderState { missed_orders: (self.missed_orders + 1) as u64, ..self }
    }

    /// An attempt on a stale quote.
    pub open spec fn stale_recorded(self, filled: bool, decision_latency_ticks: u64, arrival_lag_ticks: u64) -> TraderState {
        TraderState {
            stale_fills: if filled {
                (self.stale_fills + 1) as u64
            } else {
                self.stale_fills
            },
            stale_misses: if filled {
                self.stale_misses
            } else {
                (self.stale_misses + 1) as u64
            },
            stale_decision_latency_ticks_sum: (self.stale_decision_latency_ticks_sum
                + decision_latency_ticks) as u64,
            stale_arrival_lag_ticks_sum: (self.stale_arrival_lag_ticks_sum + arrival_lag_ticks) as u64,
            ..self
        }
    }

    /// The fills of one order on `side`, booked.
    pub open spec fn with_fills(self, fs: Seq<Fill>, side: Side) -> TraderState {
        match side {
            Side::Buy => TraderState {
                position: (self.position + qty_sum(fs)) as i64,
                cash: (self.cash - notional_sum(fs)) as i64,
                num_buys: (self.num_buys + fs.len()) as u64,
                total_buy_qty: (self.total_buy_qty + qty_sum(fs)) as u64,
                total_buy_cost: (self.total_buy_cost + notional_sum(fs)) as i64,
                ..self
            },
            Side::Sell => TraderState {
                position: (self.position - qty_sum(fs)) as i64,
                cash: (self.cash + notional_sum(fs)) as i64,
                num_sells: (self.num_sells + fs.len()) as u64,
                total_sell_qty: (self.total_sell_qty + qty_sum(fs)) as u64,
                total_sell_proceeds: (self.total_sell_proceeds + notional_sum(fs)) as i64,
                ..self
            },
        }
    }
}

impl Trader {
    pub closed spec fn strategy(&self) -> Strategy {
        self.strategy
    }

    pub closed spec fn md(&self) -> Seq<(u64, L1)> {
        self.md_queue@
    }

    pub closed spec fn orders(&self) -> Seq<(u64, Action, u64)> {
        self.order_queue@
    }

    /// Account fields equal between two traders.
    pub open spec fn same_account(&self, other: &Trader) -> bool {
        &&& self.position == other.position
        &&& self.cash == other.cash
        &&& self.num_buys == other.num_buys
        &&& self.num_sells == other.num_sells
        &&& self.total_buy_qty == other.total_buy_qty
        &&& self.total_sell_qty == other.total_sell_qty
        &&& self.total_buy_cost == other.total_buy_cost
        &&& self.total_sell_proceeds == other.total_sell_proceeds
        &&& self.missed_orders == other.missed_orders
        &&& self.stale_fills == other.stale_fills
        &&& self.stale_misses == other.stale_misses
        &&& self.stale_decision_latency_ticks_sum == other.stale_decision_latency_ticks_sum
        &&& self.stale_arrival_lag_ticks_sum == other.stale_arrival_lag_ticks_sum
    }

    /// The fills of one side of the account can be applied without overflow.
    pub open spec fn can_apply(&self, fs: Seq<Fill>, side: Side) -> bool {
        &&& forall|i: int|
            0 <= i < fs.len() ==> (#[trigger] fs[i]).price * fs[i].qty <= i64::MAX && fs[i].price
                <= i64::MAX && fs[i].qty <= i64::MAX
        &&& match side {
            Side::Buy => {
                &&& self.position + qty_sum(fs) <= i64::MAX
                &&& self.cash - notional_sum(fs) >= i64::MIN
                &&& self.num_buys + fs.len() <= u64::MAX
                &&& self.total_buy_qty + qty_sum(fs) <= u64::MAX
                &&& self.total_buy_cost + notional_sum(fs) <= i64::MAX
            },
            Side::Sell => {
                &&& self.position - qty_sum(fs) >= i64::MIN
                &&& self.cash + notional_sum(fs) <= i64::MAX
                &&& self.num_sells + fs.len() <= u64::MAX
                &&& self.total_sell_qty + qty_sum(fs) <= u64::MAX
                &&& self.total_sell_proceeds + notional_sum(fs) <= i64::MAX
            },
        }
    }

    pub fn new(config: TraderConfig) -> (t: Self)
        ensures
            t@ == TraderState::start(config.name@, config.md_latency, config.order_latency, config.max_position),
            t.config == config,
            t.strategy().limit() == config.max_position,
            t.strategy().edge() == 2,
            t.strategy().lot() == 1,
            t.md() == Seq::<(u64, L1)>::empty(),
            t.orders() == Seq::<(u64, Action, u64)>::empty(),
            t.position == 0 && t.cash == 0,
            t.num_buys == 0 && t.num_sells == 0,
            t.total_buy_qty == 0 && t.total_sell_qty == 0,
            t.total_buy_cost == 0 && t.total_sell_proceeds == 0,
            t.missed_orders == 0 && t.stale_fills == 0 && t.stale_misses == 0,
            t.stale_decision_latency_ticks_sum == 0 && t.stale_arrival_lag_ticks_sum == 0,
    {
        Self {
            strategy: Strategy::new(config.max_position),
            config,
            position: 0,
            cash: 0,
            num_buys: 0,
            num_sells: 0,
            total_buy_qty: 0,
            total_sell_qty: 0,
            total_buy_cost: 0,
            total_sell_proceeds: 0,
            missed_orders: 0,
            stale_fills: 0,
            stale_misses: 0,
            stale_decision_latency_ticks_sum: 0,
            stale_arrival_lag_ticks_sum: 0,
            md_queue: VecDeque::with_capacity(256),
            order_queue: VecDeque::with_capacity(64),
        }
    }

    /// Queues a snapshot to be delivered at `delivery_tick`.
    pub fn queue_md(&mut self, delivery_tick: u64, l1: L1)
        ensures
            final(self)@ == old(self)@.queued_md(delivery_tick, l1),
            final(self).md() == old(self).md().push((delivery_tick, l1)),
            final(self).orders() == old(self).orders(),
            final(self).strategy() == old(self).strategy(),
            final(self).config == old(self).config,
            final(self).same_account(&*old(self)),
    {
        self.md_queue.push_back((delivery_tick, l1));
    }

    /// Process arrived market data, run strategy, queue any resulting orders.
    pub fn process_md(&mut self, current_tick: u64)
        requires
            old(self).strategy().limit() > i64::MIN,
            ({
                let k = md_arrived(old(self).md(), current_tick);
                k > 0 && old(self).orders().len() == 0 && old(self).strategy().decide_spec(
                    old(self).md()[k - 1].1,
                    old(self).position,
                ) is Some ==> current_tick + old(self).config.order_latency <= u64::MAX
            }),
        ensures
            final(self)@ == old(self)@.processed_md(current_tick),
            ({
                let k = md_arrived(old(self).md(), current_tick);
                &&& final(self).md() == old(self).md().skip(k as int)
                &&& final(self).orders() == (if k > 0 && old(self).orders().len() == 0 {
                    match old(self).strategy().decide_spec(old(self).md()[k - 1].1, old(self).position) {
                        Some(a) => old(self).orders().push(
                            (
                                (current_tick + old(self).config.order_latency) as u64,
                                a,
                                sat_sub(current_tick, old(self).md()[k - 1].1.tick),
                            ),
                        ),
                        None => old(self).orders(),
                    }
                } else {
                    old(self).orders()
                })
            }),
            final(self).strategy() == old(self).strategy(),
            final(self).config == old(self).config,
            final(self).same_account(&*old(self)),
    {
        let ghost q0 = self.md_queue@;
        let mut latest: Option<L1> = None;
        let ghost mut n: nat = 0;
        proof {
            assert(q0.skip(0) =~= q0);
        }
        while self.md_queue.len() > 0
            invariant
                n <= q0.len(),
                self.md_queue@ == q0.skip(n as int),
                md_arrived(q0, current_tick) == n + md_arrived(q0.skip(n as int), current_tick),
                latest == (if n > 0 {
                    Some(q0[n - 1].1)
                } else {
                    None::<L1>
                }),
                self.order_queue@ == old(self).order_queue@,
                self.strategy == old(self).strategy,
                self.config == old(self).config,
                self.same_account(&*old(self)),
            ensures
                md_arrived(q0, current_tick) == n,
                self.md_queue@ == q0.skip(n as int),
                latest == (if n > 0 {
                    Some(q0[n - 1].1)
                } else {
                    None::<L1>
                }),
                self.order_queue@ == old(self).order_queue@,
                self.strategy == old(self).strategy,
                self.config == old(self).config,
                self.same_account(&*old(self)),
            decreases self.md_queue@.len(),
        {
            let delivery = self.md_queue[0].0;
            if delivery <= current_tick {
                let (_, l1) = self.md_queue.pop_front().unwrap();
                proof {
                    assert(q0.skip(n as int).drop_first() =~= q0.skip((n + 1) as int));
                    n = n + 1;
                }
                latest = Some(l1);
            } else {
                break;
            }
        }
        if let Some(l1) = latest {
            if self.order_queue.len() == 0 {
                if let Some(action) = self.strategy.decide(&l1, self.position, current_tick) {
                    let delivery = current_tick + self.config.order_latency;
                    let decision_latency = current_tick.saturating_sub(l1.tick);
                    self.order_queue.push_back((delivery, action, decision_latency));
                }
            }
        }
    }

    /// Return orders that have arrived at the exchange this tick.
    pub fn drain_arrived_orders(&mut self, current_tick: u64) -> (r: Vec<(Action, u64)>)
        ensures
            (final(self)@, r@) == old(self)@.drained(current_tick),
            ({
                let k = orders_arrived(old(self).orders(), current_tick);
                &&& final(self).orders() == old(self).orders().skip(k as int)
                &&& r@.len() == k
                &&& forall|i: int|
                    0 <= i < k ==> #[trigger] r@[i] == (old(self).orders()[i].1, old(
                        self,
                    ).orders()[i].2)
            }),
            final(self).md() == old(self).md(),
            final(self).strategy() == old(self).strategy(),
            final(self).config == old(self).config,
            final(self).same_account(&*old(self)),
    {
        let ghost q0 = self.order_queue@;
        let mut orders = Vec::new();
        proof {
            assert(q0.skip(0) =~= q0);
        }
        while self.order_queue.len() > 0
            invariant
                orders@.len() <= q0.len(),
                self.order_queue@ == q0.skip(orders@.len() as int),
                orders_arrived(q0, current_tick) == orders@.len() + orders_arrived(
                    q0.skip(orders@.len() as int),
                    current_tick,
                ),
                forall|i: int| 0 <= i < orders@.len() ==> #[trigger] orders@[i] == (q0[i].1, q0[i].2),
                self.md_queue@ == old(self).md_queue@,
                self.strategy == old(self).strategy,
                self.config == old(self).config,
                self.same_account(&*old(self)),
            ensures
                orders_arrived(q0, current_tick) == orders@.len(),
                self.order_queue@ == q0.skip(orders@.len() as int),
                forall|i: int| 0 <= i < orders@.len() ==> #[trigger] orders@[i] == (q0[i].1, q0[i].2),
                self.md_queue@ == old(self).md_queue@,
                self.strategy == old(self).strategy,
                self.config == old(self).config,
                self.same_account(&*old(self)),
            decreases self.order_queue@.len(),
        {
            let delivery = self.order_queue[0].0;
            if delivery <= current_tick {
                let (_, action, decision_latency) = self.order_queue.pop_front().unwrap();
                proof {
                    assert(q0.skip(orders@.len() as int).drop_first() =~= q0.skip((orders@.len() + 1) as int));
                }
                orders.push((action, decision_latency));
            } else {
                break;
            }
        }
        orders
    }

    pub fn record_miss(&mut self)
        requires
            old(self).missed_orders < u64::MAX,
        ensures
            final(self)@ == old(self)@.missed(),
            final(self).missed_orders == old(self).missed_orders + 1,
            final(self).position == old(self).position,
            final(self).cash == old(self).cash,
            final(self).num_buys == old(self).num_buys,
            final(self).num_sells == old(self).num_sells,
            final(self).total_buy_qty == old(self).total_buy_qty,
            final(self).total_sell_qty == old(self).total_sell_qty,
            final(self).total_buy_cost == old(self).total_buy_cost,
            final(self).total_sell_proceeds == old(self).total_sell_proceeds,
            final(self).stale_decision_latency_ticks_sum == old(self).stale_decision_latency_ticks_sum,
            final(self).stale_arrival_lag_ticks_sum == old(self).stale_arrival_lag_ticks_sum,
            final(self).stale_fills == old(self).stale_fills,
            final(self).stale_misses == old(self).stale_misses,
            final(self).md() == old(self).md(),
            final(self).orders() == old(self).orders(),
            final(self).strategy() == old(self).strategy(),
            final(self).config == old(self).config,
    {
        self.missed_orders += 1;
    }

    pub fn record_stale_outcome(
        &mut self,
        filled: bool,
        decision_latency_ticks: u64,
        arrival_lag_ticks: u64,
    )
        requires
            filled ==> old(self).stale_fills < u64::MAX,
            !filled ==> old(self).stale_misses < u64::MAX,
            old(self).stale_decision_latency_ticks_sum + decision_latency_ticks <= u64::MAX,
            old(self).stale_arrival_lag_ticks_sum + arrival_lag_ticks <= u64::MAX,
        ensures
            final(self)@ == old(self)@.stale_recorded(filled, decision_latency_ticks, arrival_lag_ticks),
            final(self).stale_fills == old(self).stale_fills + (if filled {
                1int
            } else {
                0int
            }),
            final(self).stale_misses == old(self).stale_misses + (if filled {
                0int
            } else {
                1int
            }),
            final(self).stale_decision_latency_ticks_sum == old(self).stale_decision_latency_ticks_sum
                + decision_latency_ticks,
            final(self).stale_arrival_lag_ticks_sum == old(self).stale_arrival_lag_ticks_sum
                + arrival_lag_ticks,
            final(self).position == old(self).position,
            final(self).cash == old(self).cash,
            final(self).num_buys == old(self).num_buys,
            final(self).num_sells == old(self).num_sells,
            final(self).total_buy_qty == old(self).total_buy_qty,
            final(self).total_sell_qty == old(self).total_sell_qty,
            final(self).total_buy_cost == old(self).total_buy_cost,
            final(self).total_sell_proceeds == old(self).total_sell_proceeds,
            final(self).missed_orders == old(self).missed_orders,
            final(self).md() == old(self).md(),
            final(self).orders() == old(self).orders(),
            final(self).strategy() == old(self).strategy(),
            final(self).config == old(self).config,
    {
        if filled {
            self.stale_fills += 1;
        } else {
            self.stale_misses += 1;
        }
        self.stale_decision_latency_ticks_sum += decision_latency_ticks;
        self.stale_arrival_lag_ticks_sum += arrival_lag_ticks;
    }

    /// Books the fills of one of this trader's orders on `side`.
    pub fn apply_fills(&mut self, fills: &[Fill], side: Side)
        requires
            old(self).can_apply(fills@, side),
        ensures
            final(self)@ == old(self)@.with_fills(fills@, side),
            final(self).config == old(self).config,
            final(self).md() == old(self).md(),
            final(self).orders() == old(self).orders(),
            final(self).strategy() == old(self).strategy(),
            final(self).missed_orders == old(self).missed_orders,
            final(self).stale_fills == old(self).stale_fills,
            final(self).stale_misses == old(self).stale_misses,
            final(self).stale_decision_latency_ticks_sum == old(self).stale_decision_latency_ticks_sum,
            final(self).stale_arrival_lag_ticks_sum == old(self).stale_arrival_lag_ticks_sum,
            match side {
                Side::Buy => {
                    &&& final(self).position == old(self).position + qty_sum(fills@)
                    &&& final(self).cash == old(self).cash - notional_sum(fills@)
                    &&& final(self).num_buys == old(self).num_buys + fills@.len()
                    &&& final(self).total_buy_qty == old(self).total_buy_qty + qty_sum(fills@)
                    &&& final(self).total_buy_cost == old(self).total_buy_cost + notional_sum(fills@)
                    &&& final(self).num_sells == old(self).num_sells
                    &&& final(self).total_sell_qty == old(self).total_sell_qty
                    &&& final(self).total_sell_proceeds == old(self).total_sell_proceeds
                },
                Side::Sell => {
                    &&& final(self).position == old(self).position - qty_sum(fills@)
                    &&& final(self).cash == old(self).cash + notional_sum(fills@)
                    &&& final(self).num_sells == old(self).num_sells + fills@.len()
                    &&& final(self).total_sell_qty == old(self).total_sell_qty + qty_sum(fills@)
                    &&& final(self).total_sell_proceeds == old(self).total_sell_proceeds
                        + notional_sum(fills@)
                    &&& final(self).num_buys == old(self).num_buys
                    &&& final(self).total_buy_qty == old(self).total_buy_qty
                    &&& final(self).total_buy_cost == old(self).total_buy_cost
                },
            },
    {
        let ghost fs = fills@;
        let mut i: usize = 0;
        proof {
            assert(fs.take(0) =~= Seq::<Fill>::empty());
        }
        while i < fills.len()
            invariant
                fs == fills@,
                0 <= i <= fills.len(),
                old(self).can_apply(fs, side),
                self.config == old(self).config,
                self.md_queue@ == old(self).md_queue@,
                self.order_queue@ == old(self).order_queue@,
                self.strategy == old(self).strategy,
                self.missed_orders == old(self).missed_orders,
                self.stale_fills == old(self).stale_fills,
                self.stale_misses == old(self).stale_misses,
                self.stale_decision_latency_ticks_sum == old(self).stale_decision_latency_ticks_sum,
                self.stale_arrival_lag_ticks_sum == old(self).stale_arrival_lag_ticks_sum,
                match side {
                    Side::Buy => {
                        &&& self.position == old(self).position + qty_sum(fs.take(i as int))
                        &&& self.cash == old(self).cash - notional_sum(fs.take(i as int))
                        &&& self.num_buys == old(self).num_buys + i
                        &&& self.total_buy_qty == old(self).total_buy_qty + qty_sum(fs.take(i as int))
                        &&& self.total_buy_cost == old(self).total_buy_cost + notional_sum(
                            fs.take(i as int),
                        )
                        &&& self.num_sells == old(self).num_sells
                        &&& self.total_sell_qty == old(self).total_sell_qty
                        &&& self.total_sell_proceeds == old(self).total_sell_proceeds
                    },
                    Side::Sell => {
                        &&& self.position == old(self).position - qty_sum(fs.take(i as int))
                        &&& self.cash == old(self).cash + notional_sum(fs.take(i as int))
                        &&& self.num_sells == old(self).num_sells + i
                        &&& self.total_sell_qty == old(self).total_sell_qty + qty_sum(fs.take(i as int))
                        &&& self.total_sell_proceeds == old(self).total_sell_proceeds + notional_sum(
                            fs.take(i as int),
                        )
                        &&& self.num_buys == old(self).num_buys
                        &&& self.total_buy_qty == old(self).total_buy_qty
                        &&& self.total_buy_cost == old(self).total_buy_cost
                    },
                },
            decreases fills.len() - i,
        {
            let fill = &fills[i];
            proof {
                lemma_sums_prefix(fs, i + 1);
                assert(fs.take(i + 1).drop_last() =~= fs.take(i as int));
                assert(fs.take(i + 1).last() == fs[i as int]);
                assert(fs[i as int].price * fs[i as int].qty <= i64::MAX);
                assert(0 <= fs[i as int].price * fs[i as int].qty) by (nonlinear_arith);
            }
            let price = fill.price as i64;
            let qty = fill.qty as i64;
            match side {
                Side::Buy => {
                    self.position += qty;
                    self.cash -= price * qty;
                    self.num_buys += 1;
                    self.total_buy_qty += fill.qty;
                    self.total_buy_cost += price * qty;
                },
                Side::Sell => {
                    self.position -= qty;
                    self.cash += price * qty;
                    self.num_sells += 1;
                    self.total_sell_qty += fill.qty;
                    self.total_sell_proceeds += price * qty;
                },
            }
            i += 1;
        }
        proof {
            assert(fs.take(i as int) =~= fs);
        }
    }

    pub fn total_pnl(&self) -> (r: i64)
        ensures
            r == self.cash,
    {
        self.cash
    }

    pub fn total_trades(&self) -> (r: u64)
        requires
            self.num_buys + self.num_sells <= u64::MAX,
        ensures
            r == self.num_buys + self.num_sells,
    {
        self.num_buys + self.num_sells
    }
}

} // verus!
