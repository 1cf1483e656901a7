use matching_engine::server::gateway::{
    classify_order_intent, fill_log_kind, liquidate_client, process_new_order, process_order_msg,
    trade_class, Client, OrderIntent, OrderMsg, TradeClass,
};
use matching_engine::server::wire::{
    side_to_wire, wire_to_side, EXEC_CANCEL_ACK, EXEC_FILL, EXEC_NEW_ACK, EXEC_PARTIAL_FILL,
    EXEC_REJECT, ORDER_MSG_CANCEL, ORDER_MSG_NEW, ORDER_TYPE_IOC_LIMIT, ORDER_TYPE_LIMIT,
    ORDER_TYPE_MARKET, SIDE_BUY, SIDE_SELL,
};
use matching_engine::sim::exchange::{SimExchange, StaleOutcome};
use matching_engine::Side;

fn msg(side: u8, order_type: u8, price: u64, qty: u32) -> OrderMsg {
    OrderMsg {
        msg_type: ORDER_MSG_NEW,
        side,
        order_type,
        client_order_id: 42,
        price,
        qty,
        cancel_order_id: 0,
    }
}

fn outcome(filled: bool) -> StaleOutcome {
    StaleOutcome { event_id: 3, side: Side::Buy, price: 100, filled, arrival_lag_ticks: 2 }
}

#[test]
fn side_codes_round_trip() {
    assert_eq!(side_to_wire(Side::Buy), SIDE_BUY);
    assert_eq!(side_to_wire(Side::Sell), SIDE_SELL);
    assert_eq!(wire_to_side(side_to_wire(Side::Buy)), Side::Buy);
    assert_eq!(wire_to_side(side_to_wire(Side::Sell)), Side::Sell);
    assert_eq!(wire_to_side(7), Side::Sell);
}

#[test]
fn intent_of_orders() {
    assert_eq!(classify_order_intent(-5, Side::Buy, 3), OrderIntent::Closing);
    assert_eq!(classify_order_intent(-5, Side::Buy, 5), OrderIntent::Closing);
    assert_eq!(classify_order_intent(-5, Side::Buy, 6), OrderIntent::Normal);
    assert_eq!(classify_order_intent(5, Side::Sell, 5), OrderIntent::Closing);
    assert_eq!(classify_order_intent(5, Side::Buy, 1), OrderIntent::Normal);
    assert_eq!(classify_order_intent(0, Side::Sell, 1), OrderIntent::Normal);
}

#[test]
fn trade_classes_and_names() {
    assert_eq!(trade_class(None, OrderIntent::Closing), TradeClass::Close);
    assert_eq!(trade_class(Some(outcome(true)), OrderIntent::Closing), TradeClass::Close);
    assert_eq!(trade_class(Some(outcome(false)), OrderIntent::Normal), TradeClass::Stale);
    assert_eq!(trade_class(None, OrderIntent::Normal), TradeClass::NoStale);
    assert_eq!(TradeClass::Close.as_str(), "close");
    assert_eq!(TradeClass::Stale.as_str(), "stale");
    assert_eq!(TradeClass::NoStale.as_str(), "no_stale");
    assert_eq!(OrderIntent::Normal.as_str(), "normal");
    assert_eq!(OrderIntent::Closing.as_str(), "closing");
}

#[test]
fn fill_log_kinds() {
    assert_eq!(fill_log_kind(Some(outcome(true)), OrderIntent::Closing), "stale_closing_fill");
    assert_eq!(fill_log_kind(Some(outcome(false)), OrderIntent::Closing), "stale_closing_attempt_other_fill");
    assert_eq!(fill_log_kind(None, OrderIntent::Closing), "closing_fill");
    assert_eq!(fill_log_kind(Some(outcome(true)), OrderIntent::Normal), "stale_fill");
    assert_eq!(fill_log_kind(Some(outcome(false)), OrderIntent::Normal), "stale_attempt_other_fill");
    assert_eq!(fill_log_kind(None, OrderIntent::Normal), "non_stale_fill");
}

#[test]
fn account_fill_and_position_delta() {
    let mut c = Client::new(7);
    assert_eq!((c.id, c.position, c.cash, c.fills), (7, 0, 0, 0));
    c.apply_fill(Side::Buy, 100, 3);
    assert_eq!((c.position, c.cash, c.buys, c.buy_qty, c.fills), (3, -300, 1, 3, 1));
    c.apply_fill(Side::Sell, 110, 3);
    assert_eq!((c.position, c.cash, c.sells, c.sell_qty, c.fills), (0, 30, 1, 3, 2));
    c.apply_position_delta(Side::Buy, 7, 2);
    assert_eq!((c.position, c.cash, c.fills), (2, 16, 2));
}

#[test]
fn buy_then_sell_at_same_price_restores_account() {
    let mut c = Client::new(1);
    c.apply_position_delta(Side::Buy, 250, 4);
    c.apply_position_delta(Side::Sell, 250, 4);
    assert_eq!((c.position, c.cash), (0, 0));
}

#[test]
fn account_liquidation_fill_and_stale_outcome() {
    let mut c = Client::new(1);
    c.apply_liquidation_fill(Side::Sell, 50, 2);
    assert_eq!((c.position, c.cash, c.liquidation_cash), (-2, 100, 100));
    assert_eq!((c.liquidation_sells, c.liquidation_sell_qty, c.liquidation_sell_notional, c.liquidation_fills), (1, 2, 100, 1));
    c.apply_stale_outcome(outcome(true));
    c.apply_stale_outcome(outcome(false));
    assert_eq!((c.stale_fills, c.stale_misses, c.stale_arrival_lag_ticks_sum), (1, 1, 4));
}

#[test]
fn ioc_partial_fill_reports() {
    let mut ex = SimExchange::new();
    let mut c = Client::new(1);
    let m = msg(SIDE_BUY, ORDER_TYPE_IOC_LIMIT, 10_002, 3);
    let r = process_new_order(&mut ex, &mut c, &m);
    let kinds: Vec<(u8, u32, u64, u32)> = r.reports.iter().map(|x| (x.exec_type, x.fill_qty, x.fill_price, x.leaves_qty)).collect();
    assert_eq!(
        kinds,
        vec![
            (EXEC_NEW_ACK, 0, 0, 3),
            (EXEC_PARTIAL_FILL, 1, 10_001, 2),
            (EXEC_PARTIAL_FILL, 1, 10_002, 1),
            (EXEC_CANCEL_ACK, 0, 0, 1),
        ]
    );
    assert!(r.reports.iter().all(|x| x.order_id == 42 && x.side == SIDE_BUY));
    assert_eq!(r.fills.len(), 2);
    assert!(r.stale_outcome.is_none());
    assert_eq!(r.intent, OrderIntent::Normal);
    assert_eq!(r.pre_order_position, 0);
    assert_eq!((c.orders_total, c.orders_accepted, c.orders_filled), (1, 1, 1));
    assert_eq!((c.fills, c.buys, c.buy_qty, c.position, c.cash), (2, 2, 2, 2, -20_003));
}

#[test]
fn ioc_full_fill_has_no_cancel() {
    let mut ex = SimExchange::new();
    let mut c = Client::new(1);
    let r = process_new_order(&mut ex, &mut c, &msg(SIDE_BUY, ORDER_TYPE_IOC_LIMIT, 10_001, 1));
    let kinds: Vec<u8> = r.reports.iter().map(|x| x.exec_type).collect();
    assert_eq!(kinds, vec![EXEC_NEW_ACK, EXEC_FILL]);
}

#[test]
fn rejected_order_type() {
    let mut ex = SimExchange::new();
    let mut c = Client::new(1);
    let before = ex.debug_l1();
    let r = process_new_order(&mut ex, &mut c, &msg(SIDE_SELL, ORDER_TYPE_LIMIT, 9_000, 3));
    assert_eq!(r.reports.len(), 1);
    assert_eq!((r.reports[0].exec_type, r.reports[0].leaves_qty), (EXEC_REJECT, 3));
    assert_eq!((c.orders_total, c.orders_rejected, c.orders_accepted), (1, 1, 0));
    assert!(r.fills.is_empty());
    assert_eq!(ex.debug_l1().bid, before.bid);
}

#[test]
fn missed_ioc_records_gap() {
    let mut ex = SimExchange::new();
    let mut c = Client::new(1);
    let r = process_new_order(&mut ex, &mut c, &msg(SIDE_BUY, ORDER_TYPE_IOC_LIMIT, 9_990, 1));
    let kinds: Vec<(u8, u32)> = r.reports.iter().map(|x| (x.exec_type, x.leaves_qty)).collect();
    assert_eq!(kinds, vec![(EXEC_NEW_ACK, 1), (EXEC_CANCEL_ACK, 1)]);
    assert_eq!((c.missed_ioc, c.missed_ioc_buys, c.missed_ioc_buy_gap_sum), (1, 1, 11));
    let r2 = process_new_order(&mut ex, &mut c, &msg(SIDE_SELL, ORDER_TYPE_IOC_LIMIT, 10_004, 2));
    assert_eq!(r2.reports.len(), 2);
    assert_eq!((c.missed_ioc, c.missed_ioc_sells, c.missed_ioc_sell_gap_sum), (2, 1, 5));
    assert_eq!(c.orders_filled, 0);
}

#[test]
fn market_order_reports() {
    let mut ex = SimExchange::new();
    let mut c = Client::new(1);
    let r = process_new_order(&mut ex, &mut c, &msg(SIDE_SELL, ORDER_TYPE_MARKET, 0, 2));
    let kinds: Vec<(u8, u64, u32)> = r.reports.iter().map(|x| (x.exec_type, x.fill_price, x.leaves_qty)).collect();
    assert_eq!(kinds, vec![(EXEC_NEW_ACK, 0, 2), (EXEC_PARTIAL_FILL, 9_999, 1), (EXEC_FILL, 9_998, 0)]);
    assert_eq!((c.position, c.cash, c.sells), (-2, 19_997, 2));
}

#[test]
fn closing_intent_is_reported() {
    let mut ex = SimExchange::new();
    let mut c = Client::new(1);
    process_new_order(&mut ex, &mut c, &msg(SIDE_BUY, ORDER_TYPE_IOC_LIMIT, 10_001, 1));
    let r = process_new_order(&mut ex, &mut c, &msg(SIDE_SELL, ORDER_TYPE_IOC_LIMIT, 9_999, 1));
    assert_eq!(r.intent, OrderIntent::Closing);
    assert_eq!(r.pre_order_position, 1);
    assert_eq!(c.position, 0);
}

#[test]
fn order_msg_dispatch() {
    let mut ex = SimExchange::new();
    let mut c = Client::new(1);
    let mut cancel = msg(SIDE_BUY, ORDER_TYPE_IOC_LIMIT, 10_001, 1);
    cancel.msg_type = ORDER_MSG_CANCEL;
    assert!(process_order_msg(&mut ex, &mut c, &cancel).is_none());
    assert_eq!(c.orders_total, 0);
    let r = process_order_msg(&mut ex, &mut c, &msg(SIDE_BUY, ORDER_TYPE_IOC_LIMIT, 10_001, 1));
    assert!(r.is_some());
    assert_eq!(c.orders_total, 1);
    c.disconnected = true;
    assert!(process_order_msg(&mut ex, &mut c, &msg(SIDE_BUY, ORDER_TYPE_IOC_LIMIT, 10_001, 1)).is_none());
    assert_eq!(c.orders_total, 1);
}

#[test]
fn liquidation_closes_position() {
    let mut ex = SimExchange::new();
    let mut c = Client::new(1);
    process_new_order(&mut ex, &mut c, &msg(SIDE_BUY, ORDER_TYPE_IOC_LIMIT, 10_002, 2));
    assert_eq!((c.position, c.cash), (2, -20_003));
    let l = liquidate_client(&mut ex, &mut c);
    assert_eq!(l.position, 2);
    assert_eq!(l.mark_sum, 9_999 + 10_003);
    assert_eq!(l.cash_delta, 9_999 + 9_998);
    assert_eq!((c.position, c.pre_liq_position, c.liquidation_fills), (0, 2, 2));
    assert_eq!((c.liquidation_sells, c.liquidation_sell_qty, c.liquidation_sell_notional), (2, 2, 19_997));
    assert_eq!(c.liquidation_cash, 19_997);
    assert_eq!(c.cash, -6);
}

#[test]
fn liquidation_of_flat_account_does_nothing() {
    let mut ex = SimExchange::new();
    let mut c = Client::new(1);
    let l = liquidate_client(&mut ex, &mut c);
    assert_eq!((l.position, l.cash_delta), (0, 0));
    assert_eq!(l.mark_sum, 20_000);
    assert_eq!(c.liquidation_fills, 0);
}

#[test]
fn room_check() {
    let c = Client::new(1);
    assert!(c.has_room_for(&msg(SIDE_BUY, ORDER_TYPE_IOC_LIMIT, 10, 1), 5));
    let mut d = Client::new(1);
    d.missed_ioc_sell_gap_sum = u64::MAX - 3;
    assert!(!d.has_room_for(&msg(SIDE_SELL, ORDER_TYPE_IOC_LIMIT, 10, 1), 5));
    // A market order never counts a miss, so the gap sum does not matter.
    assert!(d.has_room_for(&msg(SIDE_SELL, ORDER_TYPE_MARKET, 10, 1), 5));
    let mut e = Client::new(1);
    e.position = i64::MIN;
    assert!(!e.has_room_for(&msg(SIDE_SELL, ORDER_TYPE_IOC_LIMIT, 10, 1), 5));
    assert!(!e.has_room_for(&msg(SIDE_BUY, ORDER_TYPE_IOC_LIMIT, 10, 1), 5));
    e.position = i64::MAX;
    assert!(e.has_room_for(&msg(SIDE_SELL, ORDER_TYPE_IOC_LIMIT, 10, 1), 5));
    assert!(!e.has_room_for(&msg(SIDE_BUY, ORDER_TYPE_IOC_LIMIT, 10, 1), 5));
    let mut f = Client::new(1);
    f.orders_total = u64::MAX;
    assert!(!f.has_room_for(&msg(SIDE_BUY, ORDER_TYPE_LIMIT, 10, 1), 5));
    f.orders_total = u64::MAX - 1;
    f.orders_accepted = u64::MAX;
    // A rejected order only needs room in the totals and the rejections.
    assert!(f.has_room_for(&msg(SIDE_BUY, ORDER_TYPE_LIMIT, 10, 1), 5));
    assert!(!f.has_room_for(&msg(SIDE_BUY, ORDER_TYPE_MARKET, 10, 1), 5));
    let mut g = Client::new(1);
    g.cash = i64::MIN + 10_014 * 3;
    assert!(g.has_room_for(&msg(SIDE_BUY, ORDER_TYPE_IOC_LIMIT, 10, 3), 5));
    assert!(!g.has_room_for(&msg(SIDE_BUY, ORDER_TYPE_IOC_LIMIT, 10, 4), 5));
}

#[test]
fn large_account_still_trades() {
    let mut ex = SimExchange::new();
    let mut c = Client::new(1);
    c.orders_total = u64::MAX - 1;
    c.orders_accepted = u64::MAX - 1;
    c.orders_filled = u64::MAX - 1;
    c.fills = u64::MAX - 3;
    c.buys = 1 << 63;
    c.buy_qty = 1 << 63;
    c.position = (1 << 62) + 5;
    c.cash = -(1 << 62) - 7;
    let m = msg(SIDE_BUY, ORDER_TYPE_IOC_LIMIT, 10_002, 3);
    assert!(c.has_room_for(&m, ex.tick()));
    let r = process_new_order(&mut ex, &mut c, &m);
    let kinds: Vec<u8> = r.reports.iter().map(|x| x.exec_type).collect();
    assert_eq!(kinds, vec![EXEC_NEW_ACK, EXEC_PARTIAL_FILL, EXEC_PARTIAL_FILL, EXEC_CANCEL_ACK]);
    assert_eq!((c.orders_total, c.orders_accepted, c.orders_filled), (u64::MAX, u64::MAX, u64::MAX));
    assert_eq!((c.fills, c.buys, c.buy_qty), (u64::MAX - 1, (1 << 63) + 2, (1 << 63) + 2));
    assert_eq!((c.position, c.cash), ((1 << 62) + 7, -(1 << 62) - 7 - 20_003));
    let mut big = Client::new(2);
    big.orders_total = u64::MAX - 1;
    big.orders_rejected = u64::MAX - 1;
    let r = process_new_order(&mut ex, &mut big, &msg(SIDE_SELL, ORDER_TYPE_LIMIT, 9_000, 3));
    assert_eq!((r.reports.len(), r.reports[0].exec_type, r.reports[0].leaves_qty), (1, EXEC_REJECT, 3));
    assert_eq!((big.orders_total, big.orders_rejected), (u64::MAX, u64::MAX));
}
