//! The trading simulation: two traders with different latencies race for
//! the stale quotes of one simulated exchange.
use vstd::prelude::*;
use crate::laws::{fills_qty, lemma_fills_qty_push};
use crate::sim::exchange::{
    ExchangeView, SimExchange, SimExchangeConfig, L1, DEFAULT_REFERENCE_EVENT_INTERVAL, DEFAULT_REPRICE_DELAY,
    FIRST_ORDER_ID, MAX_PRICE,
};
use crate::sim::strategy::Action;
use crate::sim::trader::{md_arrived, notional_sum, orders_arrived, qty_sum, Trader, TraderConfig, TraderState};
use crate::types::{Fill, Qty, Side};

verus! {

/// The longest simulation that `run` accepts: a trader trades at most one
/// lot a tick and as much again when its position is closed out, so in
/// this many ticks its cash and its costs, at the highest price, stay
/// within `i64`.
pub const MAX_SIM_TICKS: u64 = 460_523_868_426_941;

pub struct SimConfig {
    pub ticks: u64,
    pub fast_md_latency: u64,
    pub fast_order_latency: u64,
    pub slow_md_latency: u64,
    pub slow_order_latency: u64,
    pub max_position: i64,
    pub seed: u64,
}

impl Default for SimConfig {
    fn default() -> (c: Self)
        ensures
            c.ticks == 1_000_000,
            c.fast_md_latency == 0,
            c.fast_order_latency == 0,
            c.slow_md_latency == 100,
            c.slow_order_latency == 100,
            c.max_position == 1,
            c.seed == 42,
    {
        Self {
            ticks: 1_000_000,
            fast_md_latency: 0,
            fast_order_latency: 0,
            slow_md_latency: 100,
            slow_order_latency: 100,
            max_position: 1,
            seed: 42,
        }
    }
}

/// The end state of a simulation: the exchange and both traders, after
/// their positions were closed out.
pub struct SimRun {
    pub exchange: SimExchange,
    pub fast: Trader,
    pub slow: Trader,
}

/// The settings that `run` accepts.
pub open spec fn config_ok(cfg: SimConfig) -> bool {
    &&& cfg.ticks <= MAX_SIM_TICKS
    &&& cfg.ticks * cfg.fast_md_latency <= u64::MAX
    &&& cfg.ticks * cfg.slow_md_latency <= u64::MAX
    &&& cfg.ticks + cfg.fast_md_latency <= u64::MAX
    &&& cfg.ticks + cfg.fast_order_latency <= u64::MAX
    &&& cfg.ticks + cfg.slow_md_latency <= u64::MAX
    &&& cfg.ticks + cfg.slow_order_latency <= u64::MAX
    &&& cfg.max_position > i64::MIN
}

/// One arrived order of a trader, sent as an immediate-or-cancel order:
/// the exchange and the trader afterwards. An attempt on the stale quote
/// is recorded; an order that filled nothing is a miss, and otherwise its
/// fills are booked.
#[verifier::opaque]
pub open spec fn order_outcome(ex: ExchangeView, t: TraderState, order: (Action, u64)) -> (ExchangeView, TraderState) {
    let (action, decision_latency) = order;
    let side = match action {
        Action::Buy { .. } => Side::Buy,
        Action::Sell { .. } => Side::Sell,
    };
    let (ex2, fills, stale) = ex.ioc(side, action.spec_limit_price(), action.spec_qty());
    let t1 = match stale {
        Some(o) => t.stale_recorded(o.filled, decision_latency, o.arrival_lag_ticks),
        None => t,
    };
    (ex2, if fills.len() == 0 {
        t1.missed()
    } else {
        t1.with_fills(fills, side)
    })
}

/// Arrived orders, sent in turn.
pub open spec fn orders_outcome(ex: ExchangeView, t: TraderState, orders: Seq<(Action, u64)>) -> (ExchangeView, TraderState)
    decreases orders.len(),
{
    if orders.len() == 0 {
        (ex, t)
    } else {
        let (e, u) = orders_outcome(ex, t, orders.drop_last());
        order_outcome(e, u, orders.last())
    }
}

/// A trader at tick `tick`: the snapshot is queued after the market data
/// latency, what has arrived is decided on, and the arrived orders are
/// taken.
#[verifier::opaque]
pub open spec fn trader_tick(t: TraderState, tick: u64, l1: L1, md_latency: u64) -> (TraderState, Seq<(Action, u64)>) {
    t.queued_md((tick + md_latency) as u64, l1).processed_md(tick).drained(tick)
}

/// One tick of the simulation: the exchange steps, both traders receive
/// and decide, and their arrived orders go to the exchange, the fast
/// trader's first on even ticks.
pub open spec fn sim_tick_spec(s: (ExchangeView, TraderState, TraderState), cfg: SimConfig) -> (ExchangeView, TraderState, TraderState) {
    let (ex, fast, slow) = s;
    let (ex1, l1) = ex.step();
    let tick = ex1.tick;
    let (f1, fo) = trader_tick(fast, tick, l1, cfg.fast_md_latency);
    let (s1, so) = trader_tick(slow, tick, l1, cfg.slow_md_latency);
    if tick % 2 == 0 {
        let (e2, f2) = orders_outcome(ex1, f1, fo);
        let (e3, s2) = orders_outcome(e2, s1, so);
        (e3, f2, s2)
    } else {
        let (e2, s2) = orders_outcome(ex1, s1, so);
        let (e3, f2) = orders_outcome(e2, f1, fo);
        (e3, f2, s2)
    }
}

/// A new exchange with the default delays, and two flat traders.
pub open spec fn sim_start(cfg: SimConfig) -> (ExchangeView, TraderState, TraderState) {
    (
        ExchangeView::initial(
            SimExchangeConfig {
                reference_event_interval: DEFAULT_REFERENCE_EVENT_INTERVAL,
                reprice_delay: DEFAULT_REPRICE_DELAY,
            },
        ),
        TraderState::start("A (fast)"@, cfg.fast_md_latency, cfg.fast_order_latency, cfg.max_position),
        TraderState::start("B (slow)"@, cfg.slow_md_latency, cfg.slow_order_latency, cfg.max_position),
    )
}

/// The simulation after `n` ticks.
pub open spec fn sim_after(cfg: SimConfig, n: nat) -> (ExchangeView, TraderState, TraderState)
    decreases n,
{
    if n == 0 {
        sim_start(cfg)
    } else {
        sim_tick_spec(sim_after(cfg, (n - 1) as nat), cfg)
    }
}

/// A trader's position closed out with a market order for its size.
pub open spec fn liquidated(ex: ExchangeView, t: TraderState) -> (ExchangeView, TraderState) {
    if t.position > 0 {
        let (e, fs) = ex.market(Side::Sell, t.position as u64);
        (e, t.with_fills(fs, Side::Sell))
    } else if t.position < 0 {
        let (e, fs) = ex.market(Side::Buy, (-t.position) as u64);
        (e, t.with_fills(fs, Side::Buy))
    } else {
        (ex, t)
    }
}

/// The outcome of a run: `cfg.ticks` ticks, then the fast and then the
/// slow trader closed out.
pub open spec fn sim_result(cfg: SimConfig) -> (ExchangeView, TraderState, TraderState) {
    let (e, f, s) = sim_after(cfg, cfg.ticks as nat);
    let (e1, f1) = liquidated(e, f);
    let (e2, s1) = liquidated(e1, s);
    (e2, f1, s1)
}

/// A product fits under a bound exactly when one factor fits under the
/// bound divided by the other.
proof fn lemma_product_fits(t: int, l: int, m: int)
    requires
        t > 0,
        l >= 0,
        m >= 0,
    ensures
        (t * l <= m) == (l <= m / t),
{
    assert((t * l <= m) == (l <= m / t)) by (nonlinear_arith)
        requires
            t > 0,
            l >= 0,
            m >= 0,
    ;
}

/// Whether `config_ok` holds.
pub fn config_fits(cfg: &SimConfig) -> (b: bool)
    ensures
        b == config_ok(*cfg),
{
    proof {
        if cfg.ticks > 0 {
            lemma_product_fits(cfg.ticks as int, cfg.fast_md_latency as int, u64::MAX as int);
            lemma_product_fits(cfg.ticks as int, cfg.slow_md_latency as int, u64::MAX as int);
        }
    }
    cfg.ticks <= MAX_SIM_TICKS && (cfg.ticks == 0 || (cfg.fast_md_latency <= u64::MAX / cfg.ticks
        && cfg.slow_md_latency <= u64::MAX / cfg.ticks)) && cfg.fast_md_latency <= u64::MAX - cfg.ticks
        && cfg.fast_order_latency <= u64::MAX - cfg.ticks && cfg.slow_md_latency <= u64::MAX
        - cfg.ticks && cfg.slow_order_latency <= u64::MAX - cfg.ticks && cfg.max_position
        > i64::MIN
}

/// After `k` orders at most, each for one lot at a quoted price, each
/// decided on data exactly its market data latency old and each reaching a
/// stale quote less than an event interval old, the account of a trader is
/// within these bounds.
pub open spec fn account_within(t: Trader, k: int) -> bool {
    &&& -k <= t.position <= k
    &&& -(MAX_PRICE * k) <= t.cash <= MAX_PRICE * k
    &&& t.num_buys <= k
    &&& t.num_sells <= k
    &&& t.total_buy_qty <= k
    &&& t.total_sell_qty <= k
    &&& 0 <= t.total_buy_cost <= MAX_PRICE * k
    &&& 0 <= t.total_sell_proceeds <= MAX_PRICE * k
    &&& t.missed_orders <= k
    &&& t.stale_fills <= k
    &&& t.stale_misses <= k
    &&& t.stale_decision_latency_ticks_sum <= t.config.md_latency * k
    &&& t.stale_arrival_lag_ticks_sum <= DEFAULT_REFERENCE_EVENT_INTERVAL * k
}

/// The market data a trader waits for at tick `t`: the snapshots of the
/// last ticks, one a tick up to `t`, each delivered its latency after its
/// own tick, and none of them delivered yet.
pub open spec fn md_in_flight(q: Seq<(u64, L1)>, t: int, latency: u64) -> bool {
    &&& forall|i: int|
        0 <= i < q.len() ==> #[trigger] q[i].1.tick == t - q.len() + 1 + i && q[i].0 == q[i].1.tick
            + latency
    &&& q.len() > 0 ==> q[0].0 > t
}

/// A trader waits on at most one order at a time, each for one lot and
/// decided on data exactly its market data latency old, and on the
/// snapshots of its last ticks (`md_in_flight`) at tick `k`.
pub open spec fn queue_within(t: Trader, k: int, order_latency: u64) -> bool {
    &&& t.strategy().lot() == 1
    &&& t.strategy().limit() > i64::MIN
    &&& t.config.order_latency == order_latency
    &&& t.orders().len() <= 1
    &&& forall|i: int|
        0 <= i < t.orders().len() ==> (#[trigger] t.orders()[i]).1.spec_qty() == 1 && t.orders()[i].2
            == t.config.md_latency
    &&& md_in_flight(t.md(), k, t.config.md_latency)
}

/// Queueing the snapshot of tick `t` and taking what has arrived by `t`
/// takes at most one snapshot, exactly the market data latency old, and
/// leaves the snapshots in flight.
proof fn lemma_md_step(q: Seq<(u64, L1)>, t: u64, latency: u64, l1: L1)
    requires
        t >= 1,
        t + latency <= u64::MAX,
        l1.tick == t,
        md_in_flight(q, t - 1, latency),
    ensures
        ({
            let q2 = q.push(((t + latency) as u64, l1));
            let k = md_arrived(q2, t);
            &&& k <= 1
            &&& k == 1 ==> q2[0].1.tick + latency == t
            &&& md_in_flight(q2.skip(k as int), t as int, latency)
        }),
{
    let q2 = q.push(((t + latency) as u64, l1));
    assert(forall|i: int| 0 <= i < q2.len() ==> #[trigger] q2[i].1.tick == t - q2.len() + 1 + i
        && q2[i].0 == q2[i].1.tick + latency) by {
        assert forall|i: int| 0 <= i < q2.len() implies #[trigger] q2[i].1.tick == t - q2.len() + 1 + i
            && q2[i].0 == q2[i].1.tick + latency by {
            if i < q.len() {
                assert(q2[i] == q[i]);
            }
        }
    }
    let k = md_arrived(q2, t);
    if q2.len() > 1 {
        assert(q2.drop_first()[0] == q2[1]);
        assert(q2[0].1.tick == t - q2.len() + 1);
        assert(q2[1].1.tick == t - q2.len() + 2);
        assert(q2[0].0 >= t);
        assert(q2[1].0 == q2[0].0 + 1);
        assert(md_arrived(q2.drop_first(), t) == 0);
    } else {
        assert(q2.drop_first().len() == 0);
        assert(md_arrived(q2.drop_first(), t) == 0);
    }
    assert(k <= 1);
    let r = q2.skip(k as int);
    assert forall|i: int| 0 <= i < r.len() implies #[trigger] r[i].1.tick == t - r.len() + 1 + i
        && r[i].0 == r[i].1.tick + latency by {
        assert(r[i] == q2[i + k]);
    }
    if r.len() > 0 {
        assert(r[0] == q2[k as int]);
    }
}

/// Fills at quoted prices: their quantity sums agree, their notional is at
/// most the highest price times their quantity, and there are no more of
/// them than lots.
proof fn lemma_fill_sums(fs: Seq<Fill>)
    requires
        forall|j: int| 0 <= j < fs.len() ==> #[trigger] fs[j].price <= MAX_PRICE && fs[j].qty > 0,
    ensures
        qty_sum(fs) == fills_qty(fs),
        0 <= notional_sum(fs) <= MAX_PRICE * fills_qty(fs),
        fs.len() <= fills_qty(fs),
        forall|j: int|
            0 <= j < fs.len() ==> #[trigger] fs[j].qty <= fills_qty(fs) && fs[j].price * fs[j].qty
                <= MAX_PRICE * fills_qty(fs),
    decreases fs.len(),
{
    if fs.len() > 0 {
        let d = fs.drop_last();
        let f = fs.last();
        lemma_fills_qty_push(fs);
        assert forall|j: int| 0 <= j < d.len() implies #[trigger] d[j].price <= MAX_PRICE && d[j].qty > 0 by {
            assert(d[j] == fs[j]);
        }
        lemma_fill_sums(d);
        assert(f.price <= MAX_PRICE && f.qty > 0);
        assert(0 <= f.price * f.qty <= MAX_PRICE * f.qty) by (nonlinear_arith)
            requires
                f.price <= MAX_PRICE,
        ;
        assert forall|j: int| 0 <= j < fs.len() implies #[trigger] fs[j].qty <= fills_qty(fs)
            && fs[j].price * fs[j].qty <= MAX_PRICE * fills_qty(fs) by {
            if j < d.len() {
                assert(fs[j] == d[j]);
            }
        }
    }
}

/// Sends a trader's arrived orders to the exchange as immediate-or-cancel
/// orders, and books what came of each.
fn execute_orders(exchange: &mut SimExchange, trader: &mut Trader, orders: Vec<(Action, u64)>, Ghost(k): Ghost<int>)
    requires
        old(exchange).wf(),
        old(exchange)@.next_id + orders@.len() <= u64::MAX,
        old(exchange)@.tick <= k,
        1 <= k <= MAX_SIM_TICKS,
        orders@.len() <= 1,
        forall|i: int| 0 <= i < orders@.len() ==> (#[trigger] orders@[i]).0.spec_qty() == 1 && orders@[i].1
            == old(trader).config.md_latency,
        old(trader).config.md_latency * k <= u64::MAX,
        old(exchange)@.config.reference_event_interval == DEFAULT_REFERENCE_EVENT_INTERVAL,
        account_within(*old(trader), k - 1),
    ensures
        (final(exchange)@, final(trader)@) == orders_outcome(old(exchange)@, old(trader)@, orders@),
        final(exchange).wf(),
        final(exchange)@.tick == old(exchange)@.tick,
        final(exchange)@.next_id == old(exchange)@.next_id + orders@.len(),
        final(exchange)@.num_events == old(exchange)@.num_events,
        final(exchange)@.expired_stale_quotes == old(exchange)@.expired_stale_quotes,
        final(exchange)@.config == old(exchange)@.config,
        account_within(*final(trader), if orders@.len() == 0 {
            k - 1
        } else {
            k
        }),
        final(trader).config == old(trader).config,
        final(trader).md() == old(trader).md(),
        final(trader).orders() == old(trader).orders(),
        final(trader).strategy() == old(trader).strategy(),
        final(trader).stale_fills + final(exchange)@.open_stale() == old(trader).stale_fills + old(
            exchange,
        )@.open_stale(),
{
    let mut i: usize = 0;
    while i < orders.len()
        invariant
            0 <= i <= orders@.len(),
            (exchange@, trader@) == orders_outcome(old(exchange)@, old(trader)@, orders@.take(i as int)),
            orders@.len() <= 1,
            forall|j: int| 0 <= j < orders@.len() ==> (#[trigger] orders@[j]).0.spec_qty() == 1 && orders@[j].1
                == old(trader).config.md_latency,
            0 <= k <= MAX_SIM_TICKS,
            old(trader).config.md_latency * k <= u64::MAX,
            exchange@.config.reference_event_interval == DEFAULT_REFERENCE_EVENT_INTERVAL,
            exchange.wf(),
            exchange@.tick == old(exchange)@.tick,
            exchange@.tick <= k,
            exchange@.next_id == old(exchange)@.next_id + i,
            old(exchange)@.next_id + orders@.len() <= u64::MAX,
            exchange@.num_events == old(exchange)@.num_events,
            exchange@.expired_stale_quotes == old(exchange)@.expired_stale_quotes,
            exchange@.config == old(exchange)@.config,
            account_within(*trader, if i == 0 {
                k - 1
            } else {
                k
            }),
            trader.config == old(trader).config,
            trader.md() == old(trader).md(),
            trader.orders() == old(trader).orders(),
            trader.strategy() == old(trader).strategy(),
            trader.stale_fills + exchange@.open_stale() == old(trader).stale_fills + old(exchange)@.open_stale(),
        decreases orders@.len() - i,
    {
        proof {
            reveal(order_outcome);
        }
        let (action, decision_latency_ticks) = orders[i];
        assert(orders@[i as int] == (action, decision_latency_ticks));
        assert(action.spec_qty() == 1);
        let ghost ex0 = exchange@;
        proof {
            exchange.lemma_wf_stale_age();
            let lat = trader.config.md_latency;
            assert(lat * (k - 1) + lat == lat * k) by (nonlinear_arith);
            assert(lat * (k - 1) <= lat * k) by (nonlinear_arith)
                requires
                    k >= 1,
            ;
        }
        let result = exchange.submit_ioc_limit_at(action.side(), action.limit_price(), action.qty());
        let fills = result.fills;
        proof {
            lemma_fill_sums(fills@);
        }
        match result.stale_outcome {
            Some(outcome) => {
                assert(outcome.arrival_lag_ticks < DEFAULT_REFERENCE_EVENT_INTERVAL);
                trader.record_stale_outcome(outcome.filled, decision_latency_ticks, outcome.arrival_lag_ticks);
            },
            None => {},
        }
        assert(fills_qty(fills@) <= 1);
        if fills.len() == 0 {
            trader.record_miss();
        } else {
            let side = action.side();
            assert(trader.can_apply(fills@, side));
            trader.apply_fills(fills.as_slice(), side);
        }
        proof {
            assert(orders@.take(i + 1).drop_last() =~= orders@.take(i as int));
        }
        i = i + 1;
    }
    proof {
        assert(orders@.take(orders@.len() as int) =~= orders@);
    }
}

/// Closes out a trader's position with a market order for its size.
fn liquidate_position(exchange: &mut SimExchange, trader: &mut Trader, Ghost(k): Ghost<int>)
    requires
        old(exchange).wf(),
        old(exchange)@.next_id < u64::MAX,
        0 <= k <= MAX_SIM_TICKS,
        account_within(*old(trader), k),
    ensures
        (final(exchange)@, final(trader)@) == liquidated(old(exchange)@, old(trader)@),
        final(exchange).wf(),
        final(exchange)@.tick == old(exchange)@.tick,
        final(exchange)@.next_id <= old(exchange)@.next_id + 1,
        final(trader).config == old(trader).config,
        account_within(*final(trader), 2 * k),
        final(trader).num_buys + final(trader).num_sells <= u64::MAX,
        final(trader).stale_fills == old(trader).stale_fills,
        final(exchange)@.stale_quote == old(exchange)@.stale_quote,
        final(exchange)@.num_events == old(exchange)@.num_events,
        final(exchange)@.expired_stale_quotes == old(exchange)@.expired_stale_quotes,
        final(exchange)@.price_low == old(exchange)@.price_low,
        final(exchange)@.price_high == old(exchange)@.price_high,
        final(exchange)@.reference_mid == old(exchange)@.reference_mid,
{
    proof {
        let lat = trader.config.md_latency;
        assert(lat * k <= lat * (2 * k)) by (nonlinear_arith)
            requires
                k >= 0,
        ;
    }
    let position = trader.position;
    if position > 0 {
        let qty = position as Qty;
        let fills = exchange.submit_market(Side::Sell, qty);
        proof {
            lemma_fill_sums(fills@);
        }
        trader.apply_fills(fills.as_slice(), Side::Sell);
    } else if position < 0 {
        let qty = (-position) as Qty;
        let fills = exchange.submit_market(Side::Buy, qty);
        proof {
            lemma_fill_sums(fills@);
        }
        trader.apply_fills(fills.as_slice(), Side::Buy);
    }
}


/// The state of a simulation after `n` ticks: the exchange has stepped `n`
/// times with the default delays, and each trader holds its settings,
/// waits on at most one one-lot order, and has an account within the
/// bounds of `n` orders.
pub open spec fn sim_ok(exchange: &SimExchange, fast: &Trader, slow: &Trader, cfg: SimConfig, n: u64) -> bool {
    &&& exchange.wf()
    &&& exchange@.tick == n
    &&& exchange@.next_id <= FIRST_ORDER_ID + 35 * n + 16
    &&& exchange@.num_events <= n
    &&& exchange@.expired_stale_quotes <= n
    &&& exchange@.config.reprice_delay == DEFAULT_REPRICE_DELAY
    &&& exchange@.config.reference_event_interval == DEFAULT_REFERENCE_EVENT_INTERVAL
    &&& fast.config.md_latency == cfg.fast_md_latency
    &&& fast.config.max_position == cfg.max_position
    &&& slow.config.md_latency == cfg.slow_md_latency
    &&& slow.config.max_position == cfg.max_position
    &&& queue_within(*fast, n as int, cfg.fast_order_latency)
    &&& queue_within(*slow, n as int, cfg.slow_order_latency)
    &&& account_within(*fast, n as int)
    &&& account_within(*slow, n as int)
}

/// Each stale fill of either trader, each expired stale quote and the open
/// one belong to a reference event of their own.
pub open spec fn stale_accounted(exchange: ExchangeView, fast: Trader, slow: Trader) -> bool {
    fast.stale_fills + slow.stale_fills + exchange.expired_stale_quotes + exchange.open_stale()
        <= exchange.num_events
}

/// Orders that have arrived are among those queued.
proof fn lemma_arrived_le(q: Seq<(u64, Action, u64)>, t: u64)
    ensures
        orders_arrived(q, t) <= q.len(),
    decreases q.len(),
{
    if q.len() > 0 {
        lemma_arrived_le(q.drop_first(), t);
    }
}



/// Steps the exchange once.
fn step_exchange(exchange: &mut SimExchange) -> (l1: crate::sim::exchange::L1)
    requires
        old(exchange).wf(),
        old(exchange)@.step_fits(),
    ensures
        (final(exchange)@, l1) == old(exchange)@.step(),
        final(exchange).wf(),
        final(exchange)@.tick == old(exchange)@.tick + 1,
        final(exchange)@.next_id <= old(exchange)@.next_id + 33,
        final(exchange)@.num_events <= old(exchange)@.num_events + 1,
        final(exchange)@.expired_stale_quotes <= old(exchange)@.expired_stale_quotes + 1,
        final(exchange)@.config == old(exchange)@.config,
        l1.tick == final(exchange)@.tick,
        final(exchange)@.expired_stale_quotes + final(exchange)@.open_stale() <= old(
            exchange,
        )@.expired_stale_quotes + old(exchange)@.open_stale() + (final(exchange)@.num_events - old(
            exchange,
        )@.num_events),
{
    exchange.step()
}

/// Hands a trader the snapshot of tick `tick` after its market data
/// latency, lets it decide on what has arrived, and takes the orders that
/// reach the exchange at this tick.
fn deliver(trader: &mut Trader, tick: u64, l1: crate::sim::exchange::L1, md_latency: u64, order_latency: u64) -> (orders: Vec<(Action, u64)>)
    requires
        1 <= tick <= MAX_SIM_TICKS,
        tick + md_latency <= u64::MAX,
        tick + order_latency <= u64::MAX,
        queue_within(*old(trader), tick - 1, order_latency),
        old(trader).config.md_latency == md_latency,
        l1.tick == tick,
    ensures
        (final(trader)@, orders@) == trader_tick(old(trader)@, tick, l1, md_latency),
        queue_within(*final(trader), tick as int, order_latency),
        final(trader).same_account(&*old(trader)),
        final(trader).config == old(trader).config,
        orders@.len() <= 1,
        forall|i: int| 0 <= i < orders@.len() ==> (#[trigger] orders@[i]).0.spec_qty() == 1 && orders@[i].1
            == md_latency,
{
    proof {
        reveal(trader_tick);
        lemma_md_step(trader.md(), tick, md_latency, l1);
    }
    trader.queue_md(tick + md_latency, l1);
    trader.process_md(tick);
    proof {
        assert(queue_within(*trader, tick as int, order_latency));
        lemma_arrived_le(trader.orders(), tick);
    }
    let ghost q = trader.orders();
    let orders = trader.drain_arrived_orders(tick);
    proof {
        assert forall|i: int| 0 <= i < orders@.len() implies (#[trigger] orders@[i]).0.spec_qty() == 1
            && orders@[i].1 == md_latency by {
            assert(q[i].1.spec_qty() == 1);
        }
        assert forall|i: int| 0 <= i < trader.orders().len() implies (#[trigger] trader.orders()[i]).1.spec_qty() == 1
            && trader.orders()[i].2 == md_latency by {
            assert(trader.orders()[i] == q[i + orders@.len()]);
        }
    }
    orders
}

/// One tick of the simulation.
#[verifier::rlimit(100)]
#[verifier::spinoff_prover]
fn sim_tick(exchange: &mut SimExchange, fast: &mut Trader, slow: &mut Trader, cfg: &SimConfig)
    requires
        config_ok(*cfg),
        old(exchange)@.tick < cfg.ticks,
        sim_ok(&*old(exchange), &*old(fast), &*old(slow), *cfg, old(exchange)@.tick),
        stale_accounted(old(exchange)@, *old(fast), *old(slow)),
    ensures
        sim_ok(&*final(exchange), &*final(fast), &*final(slow), *cfg, (old(exchange)@.tick + 1) as u64),
        stale_accounted(final(exchange)@, *final(fast), *final(slow)),
        (final(exchange)@, final(fast)@, final(slow)@) == sim_tick_spec(
            (old(exchange)@, old(fast)@, old(slow)@),
            *cfg,
        ),
{
    let l1 = step_exchange(exchange);
    let tick = exchange.tick();
    proof {
        assert(cfg.fast_md_latency * tick <= cfg.ticks * cfg.fast_md_latency) by (nonlinear_arith)
            requires
                tick <= cfg.ticks,
        ;
        assert(cfg.slow_md_latency * tick <= cfg.ticks * cfg.slow_md_latency) by (nonlinear_arith)
            requires
                tick <= cfg.ticks,
        ;
        assert(cfg.fast_md_latency * (tick - 1) <= cfg.fast_md_latency * tick) by (nonlinear_arith)
            requires
                tick >= 1,
        ;
        assert(cfg.slow_md_latency * (tick - 1) <= cfg.slow_md_latency * tick) by (nonlinear_arith)
            requires
                tick >= 1,
        ;
    }
    let fast_orders = deliver(fast, tick, l1, cfg.fast_md_latency, cfg.fast_order_latency);
    let slow_orders = deliver(slow, tick, l1, cfg.slow_md_latency, cfg.slow_order_latency);
    if tick % 2 == 0 {
        execute_orders(exchange, fast, fast_orders, Ghost(tick as int));
        execute_orders(exchange, slow, slow_orders, Ghost(tick as int));
    } else {
        execute_orders(exchange, slow, slow_orders, Ghost(tick as int));
        execute_orders(exchange, fast, fast_orders, Ghost(tick as int));
    }
}

/// Runs the simulation for `cfg.ticks` ticks. At each tick the exchange
/// steps, both traders receive the snapshot after their market data
/// latency, decide, and their orders reach the exchange after their order
/// latency; on even ticks the fast trader's orders go first. At the end
/// both positions are closed out at market.
pub fn run(cfg: &SimConfig) -> (r: SimRun)
    requires
        config_ok(*cfg),
    ensures
        (r.exchange@, r.fast@, r.slow@) == sim_result(*cfg),
        r.exchange.wf(),
        r.exchange@.tick == cfg.ticks,
        r.fast.config.md_latency == cfg.fast_md_latency,
        r.fast.config.order_latency == cfg.fast_order_latency,
        r.fast.config.max_position == cfg.max_position,
        r.slow.config.md_latency == cfg.slow_md_latency,
        r.slow.config.order_latency == cfg.slow_order_latency,
        r.slow.config.max_position == cfg.max_position,
        r.fast.num_buys + r.fast.num_sells <= u64::MAX,
        r.slow.num_buys + r.slow.num_sells <= u64::MAX,
        r.exchange@.price_low <= r.exchange@.reference_mid <= r.exchange@.price_high,
        r.fast.stale_fills + r.slow.stale_fills + r.exchange@.expired_stale_quotes <= r.exchange@.num_events,
{
    let mut exchange = SimExchange::new();
    let mut fast = Trader::new(
        TraderConfig {
            name: String::from_str("A (fast)"),
            md_latency: cfg.fast_md_latency,
            order_latency: cfg.fast_order_latency,
            max_position: cfg.max_position,
        },
    );
    let mut slow = Trader::new(
        TraderConfig {
            name: String::from_str("B (slow)"),
            md_latency: cfg.slow_md_latency,
            order_latency: cfg.slow_order_latency,
            max_position: cfg.max_position,
        },
    );
    let mut n: u64 = 0;
    while n < cfg.ticks
        invariant
            config_ok(*cfg),
            0 <= n <= cfg.ticks,
            sim_ok(&exchange, &fast, &slow, *cfg, n),
            stale_accounted(exchange@, fast, slow),
            (exchange@, fast@, slow@) == sim_after(*cfg, n as nat),
        decreases cfg.ticks - n,
    {
        sim_tick(&mut exchange, &mut fast, &mut slow, cfg);
        n = n + 1;
    }
    proof {
        exchange.lemma_wf_ranges();
    }
    liquidate_position(&mut exchange, &mut fast, Ghost(n as int));
    liquidate_position(&mut exchange, &mut slow, Ghost(n as int));
    SimRun { exchange, fast, slow }
}

} // verus!
