use matching_engine::sim::exchange::{SimExchange, SimExchangeConfig, DEFAULT_REFERENCE_EVENT_INTERVAL, DEFAULT_REPRICE_DELAY, L1};
use matching_engine::Side;

fn l1_tuple(l: &L1) -> (u64, u64, u64, u64, u64, u64) {
    (l.tick, l.reference_mid, l.bid, l.ask, l.bid_qty, l.ask_qty)
}

#[test]
fn exchange_starts_quoted_around_initial_mid() {
    let ex = SimExchange::new();
    let l = ex.debug_l1();
    assert_eq!(l1_tuple(&l), (0, 10_000, 9_999, 10_001, 1, 1));
    assert!(l.valid());
    assert_eq!(ex.tick(), 0);
    assert_eq!(ex.reference_mid(), 10_000);
    assert_eq!(ex.stale_events(), 0);
    assert_eq!(ex.expired_stale_quotes(), 0);
    assert!(!ex.debug_stale_quotes_enabled());
}

#[test]
fn default_config_values() {
    let c = SimExchangeConfig::default();
    assert_eq!(c.reference_event_interval, DEFAULT_REFERENCE_EVENT_INTERVAL);
    assert_eq!(c.reprice_delay, DEFAULT_REPRICE_DELAY);
    assert_eq!(c.reference_event_interval, 50);
    assert_eq!(c.reprice_delay, 10);
}

#[test]
fn first_reference_event_leaves_stale_ask() {
    let mut ex = SimExchange::new();
    let mut last = ex.debug_l1();
    for _ in 0..49 {
        last = ex.step();
        assert_eq!(last.reference_mid, 10_000);
    }
    assert_eq!(last.tick, 49);
    let l = ex.step();
    assert_eq!(l1_tuple(&l), (50, 10_006, 9_999, 10_001, 250, 1));
    assert_eq!(ex.stale_events(), 1);
    assert_eq!(ex.reference_mid(), 10_006);
}

#[test]
fn stale_quote_is_captured_by_fast_ioc() {
    let mut ex = SimExchange::new();
    for _ in 0..50 {
        ex.step();
    }
    let r = ex.submit_ioc_limit_at(Side::Buy, 10_001, 1);
    assert_eq!(r.fills.len(), 1);
    assert_eq!(r.fills[0].price, 10_001);
    assert_eq!(r.fills[0].qty, 1);
    let o = r.stale_outcome.expect("went for the stale quote");
    assert!(o.filled);
    assert_eq!(o.event_id, 1);
    assert_eq!(o.price, 10_001);
    assert_eq!(o.arrival_lag_ticks, 0);
    // A second attempt finds the quote closed.
    let r2 = ex.submit_ioc_limit_at(Side::Buy, 10_001, 1);
    assert!(r2.fills.is_empty());
    assert!(r2.stale_outcome.is_none());
    // The book reprices after the delay; the captured quote does not expire.
    for _ in 0..9 {
        ex.step();
    }
    assert_eq!(ex.tick(), 59);
    assert_eq!(ex.expired_stale_quotes(), 0);
    let l = ex.debug_l1();
    assert_eq!((l.bid, l.ask), (10_005, 10_007));
}

#[test]
fn uncaptured_stale_quote_expires() {
    let mut ex = SimExchange::new();
    for _ in 0..58 {
        ex.step();
    }
    assert_eq!(ex.expired_stale_quotes(), 0);
    let l = ex.step();
    assert_eq!(ex.expired_stale_quotes(), 1);
    assert_eq!(l1_tuple(&l), (59, 10_006, 10_005, 10_007, 1, 1));
    assert_eq!(ex.price_low(), 10_000);
    assert_eq!(ex.price_high(), 10_006);
}

#[test]
fn late_ioc_misses_stale_quote_with_lag() {
    let mut ex = SimExchange::new();
    for _ in 0..53 {
        ex.step();
    }
    let r = ex.submit_ioc_limit_at(Side::Buy, 10_001, 1);
    let o = r.stale_outcome.expect("attempt on the stale quote");
    assert!(o.filled);
    assert_eq!(o.arrival_lag_ticks, 3);
    assert_eq!(o.side, Side::Buy);
}

#[test]
fn ioc_never_rests() {
    let mut ex = SimExchange::new();
    let before = ex.debug_l1();
    let r = ex.submit_ioc_limit_at(Side::Buy, 10_000, 5);
    assert!(r.fills.is_empty());
    assert!(r.stale_outcome.is_none());
    let after = ex.debug_l1();
    assert_eq!(l1_tuple(&before), l1_tuple(&after));
}

#[test]
fn ioc_partial_fill_drops_remainder() {
    let mut ex = SimExchange::new();
    let r = ex.submit_ioc_limit_at(Side::Buy, 10_002, 5);
    assert_eq!(r.fills.len(), 2);
    assert_eq!(r.fills[0].price, 10_001);
    assert_eq!(r.fills[1].price, 10_002);
    let l = ex.debug_l1();
    assert_eq!((l.bid, l.ask, l.ask_qty), (9_999, 10_003, 1));
}

#[test]
fn market_order_walks_the_book() {
    let mut ex = SimExchange::new();
    let fills = ex.submit_market(Side::Sell, 3);
    let prices: Vec<u64> = fills.iter().map(|f| f.price).collect();
    assert_eq!(prices, vec![9_999, 9_998, 9_997]);
    assert_eq!(ex.debug_l1().bid, 9_996);
}

#[test]
fn snapshots_with_both_sides_are_valid() {
    let mut ex = SimExchange::with_config(SimExchangeConfig { reference_event_interval: 3, reprice_delay: 2 });
    for t in 0..400u64 {
        let l = ex.step();
        if l.bid > 0 && l.ask > 0 {
            assert!(l.valid(), "tick {}", t);
        }
        if t % 7 == 0 {
            ex.submit_ioc_limit_at(Side::Buy, l.ask, 2);
        }
        if t % 11 == 0 {
            ex.submit_market(Side::Sell, 1);
        }
    }
}

#[test]
fn debug_flag_round_trip() {
    let mut ex = SimExchange::new();
    ex.set_debug_stale_quotes(true);
    assert!(ex.debug_stale_quotes_enabled());
    ex.set_debug_stale_quotes(false);
    assert!(!ex.debug_stale_quotes_enabled());
}

#[test]
fn reference_event_every_interval() {
    let interval = 7;
    let mut ex = SimExchange::with_config(SimExchangeConfig { reference_event_interval: interval, reprice_delay: 3 });
    for _ in 0..100 {
        let t = ex.tick();
        let events = ex.stale_events();
        let (lo, hi) = (ex.price_low(), ex.price_high());
        let l = ex.step();
        assert_eq!(l.tick, t + 1);
        assert_eq!(ex.tick(), t + 1);
        assert_eq!(l.reference_mid, ex.reference_mid());
        assert!(ex.price_low() <= lo.min(ex.reference_mid()));
        assert!(ex.price_high() >= hi.max(ex.reference_mid()));
        let expected = if (t + 1) % interval == 0 { 1 } else { 0 };
        assert_eq!(ex.stale_events(), events + expected);
        assert!(ex.expired_stale_quotes() <= ex.stale_events());
    }
    assert_eq!(ex.stale_events(), 100 / 7);
}
