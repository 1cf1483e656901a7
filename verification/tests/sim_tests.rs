use matching_engine::sim::exchange::{SimExchange, L1};
use matching_engine::sim::runner::{config_fits, run, SimConfig};
use matching_engine::sim::strategy::{Action, Strategy};
use matching_engine::sim::trader::{Trader, TraderConfig};
use matching_engine::{Fill, Side};

fn l1(tick: u64, reference_mid: u64, bid: u64, ask: u64) -> L1 {
    L1 { tick, reference_mid, bid, ask, bid_qty: 1, ask_qty: 1 }
}

#[test]
fn l1_validity() {
    assert!(l1(0, 10, 9, 11).valid());
    assert!(!l1(0, 10, 0, 11).valid());
    assert!(!l1(0, 10, 9, 0).valid());
    assert!(!l1(0, 10, 11, 11).valid());
}

#[test]
fn strategy_buys_a_stale_ask() {
    let mut s = Strategy::new(1);
    let a = s.decide(&l1(5, 10_006, 9_999, 10_001), 0, 5).expect("edge of 5 ticks");
    assert!(matches!(a, Action::Buy { qty: 1, limit_price: 10_001 }));
    assert_eq!(a.side(), Side::Buy);
    assert_eq!(a.qty(), 1);
    assert_eq!(a.limit_price(), 10_001);
    // At the position limit it does not buy more.
    assert!(s.decide(&l1(5, 10_006, 9_999, 10_001), 1, 5).is_none());
}

#[test]
fn strategy_sells_a_stale_bid() {
    let mut s = Strategy::new(1);
    let a = s.decide(&l1(5, 9_994, 9_999, 10_001), 0, 5).expect("edge of 5 ticks");
    assert!(matches!(a, Action::Sell { qty: 1, limit_price: 9_999 }));
    assert!(s.decide(&l1(5, 9_994, 9_999, 10_001), -1, 5).is_none());
    // No edge, no order.
    assert!(s.decide(&l1(5, 10_000, 9_999, 10_001), 0, 5).is_none());
    // An invalid snapshot is ignored.
    assert!(s.decide(&l1(5, 10_006, 0, 10_001), 0, 5).is_none());
}

#[test]
fn strategy_needs_edge_above_threshold() {
    let mut s = Strategy::new(1);
    // An edge of exactly the threshold (2) is not enough.
    assert!(s.decide(&l1(0, 10_003, 9_999, 10_001), 0, 0).is_none());
    assert!(s.decide(&l1(0, 9_997, 9_999, 10_001), 0, 0).is_none());
    let b = s.decide(&l1(0, 10_004, 9_999, 10_001), 0, 0).expect("edge of 3");
    assert!(matches!(b, Action::Buy { qty: 1, limit_price: 10_001 }));
    let c = s.decide(&l1(0, 9_994, 9_999, 10_001), 0, 0).expect("edge of 5");
    assert!(matches!(c, Action::Sell { qty: 1, limit_price: 9_999 }));
    assert!(s.decide(&l1(0, 9_994, 9_999, 10_001), -1, 0).is_none());
}

#[test]
fn trader_delays_data_and_orders() {
    let mut t = Trader::new(TraderConfig { name: "t".to_string(), md_latency: 2, order_latency: 3, max_position: 1 });
    t.queue_md(3, l1(1, 10_006, 9_999, 10_001));
    t.process_md(2);
    assert!(t.drain_arrived_orders(10).is_empty());
    t.process_md(3);
    assert!(t.drain_arrived_orders(5).is_empty());
    let orders = t.drain_arrived_orders(6);
    assert_eq!(orders.len(), 1);
    assert!(matches!(orders[0].0, Action::Buy { qty: 1, limit_price: 10_001 }));
    assert_eq!(orders[0].1, 2);
    assert!(t.drain_arrived_orders(7).is_empty());
}

#[test]
fn trader_account() {
    let mut t = Trader::new(TraderConfig { name: "t".to_string(), md_latency: 0, order_latency: 0, max_position: 5 });
    let fill = |price: u64, qty: u64| Fill { maker_id: 1, taker_id: 2, price, qty, side: Side::Buy };
    t.apply_fills(&[fill(100, 2), fill(101, 1)], Side::Buy);
    assert_eq!((t.position, t.cash, t.num_buys, t.total_buy_qty, t.total_buy_cost), (3, -301, 2, 3, 301));
    t.apply_fills(&[fill(105, 3)], Side::Sell);
    assert_eq!((t.position, t.cash, t.num_sells), (0, 14, 1));
    assert_eq!(t.total_pnl(), 14);
    assert_eq!(t.total_trades(), 3);
    t.record_miss();
    t.record_stale_outcome(true, 4, 2);
    t.record_stale_outcome(false, 1, 1);
    assert_eq!((t.missed_orders, t.stale_fills, t.stale_misses), (1, 1, 1));
    assert_eq!((t.stale_decision_latency_ticks_sum, t.stale_arrival_lag_ticks_sum), (5, 3));
}

#[test]
fn simulation_favours_the_fast_trader() {
    let cfg = SimConfig { ticks: 5_000, ..SimConfig::default() };
    assert!(config_fits(&cfg));
    let r = run(&cfg);
    assert_eq!(r.exchange.tick(), 5_000);
    assert_eq!(r.exchange.stale_events(), 100);
    assert!(r.exchange.price_low() <= r.exchange.reference_mid());
    assert!(r.exchange.reference_mid() <= r.exchange.price_high());
    assert!(r.fast.stale_fills + r.slow.stale_fills + r.exchange.expired_stale_quotes() <= r.exchange.stale_events());
    assert_eq!(r.fast.total_trades(), r.fast.num_buys + r.fast.num_sells);
    assert_eq!(r.fast.position, 0);
    assert_eq!(r.slow.position, 0);
    assert!(r.fast.stale_fills > r.slow.stale_fills);
    assert!(r.fast.total_pnl() > r.slow.total_pnl());
}

#[test]
fn simulation_default_config() {
    let c = SimConfig::default();
    assert_eq!((c.ticks, c.fast_md_latency, c.fast_order_latency, c.slow_md_latency, c.slow_order_latency, c.max_position, c.seed), (1_000_000, 0, 0, 100, 100, 1, 42));
    assert!(config_fits(&c));
    assert!(!config_fits(&SimConfig { ticks: u64::MAX, ..SimConfig::default() }));
    // Latencies may be as large as the tick counter and the latency sums leave room for.
    assert!(config_fits(&SimConfig { slow_md_latency: 1 << 40, slow_order_latency: u64::MAX - 1_000_000, ..SimConfig::default() }));
    assert!(!config_fits(&SimConfig { slow_order_latency: u64::MAX - 999_999, ..SimConfig::default() }));
    assert!(!config_fits(&SimConfig { slow_md_latency: 1 << 45, ..SimConfig::default() }));
    // Long runs are bounded by the latencies, not by a fixed count.
    assert!(config_fits(&SimConfig { ticks: 1 << 40, ..SimConfig::default() }));
    assert!(config_fits(&SimConfig { ticks: 460_523_868_426_941, fast_md_latency: 0, slow_md_latency: 1, ..SimConfig::default() }));
    assert!(!config_fits(&SimConfig { ticks: 460_523_868_426_942, fast_md_latency: 0, slow_md_latency: 1, ..SimConfig::default() }));
    assert!(!config_fits(&SimConfig { ticks: 1 << 48, slow_md_latency: 1 << 20, ..SimConfig::default() }));
}

#[test]
fn simulation_with_huge_latency() {
    // The slow trader never sees a quote within the run.
    let cfg = SimConfig { ticks: 3_000, slow_md_latency: 1 << 40, ..SimConfig::default() };
    assert!(config_fits(&cfg));
    let r = run(&cfg);
    assert_eq!(r.slow.num_buys + r.slow.num_sells, 0);
    assert_eq!(r.exchange.tick(), 3_000);
}

#[test]
fn exchange_counter_checks() {
    let ex = SimExchange::new();
    assert!(ex.can_step());
    assert!(ex.has_order_id());
}
