use matching_engine::orderbook::OrderBook;
use matching_engine::{Order, OrderType, Side};

fn limit(id: u64, side: Side, price: u64, qty: u64) -> Order {
    Order {
        id,
        side,
        price,
        qty,
        order_type: OrderType::Limit,
    }
}

fn market(id: u64, side: Side, qty: u64) -> Order {
    Order {
        id,
        side,
        price: 0,
        qty,
        order_type: OrderType::Market,
    }
}

#[test]
fn test_no_match_wide_spread() {
    let mut book = OrderBook::new();
    let mut fills = Vec::new();

    book.add_order(limit(1, Side::Buy, 100, 10), &mut fills);
    assert!(fills.is_empty());
    book.add_order(limit(2, Side::Sell, 110, 10), &mut fills);
    assert!(fills.is_empty());

    assert_eq!(book.best_bid(), Some(100));
    assert_eq!(book.best_ask(), Some(110));
    assert_eq!(book.spread(), Some(10));
    assert_eq!(book.len(), 2);
}

#[test]
fn test_exact_fill() {
    let mut book = OrderBook::new();
    let mut fills = Vec::new();

    book.add_order(limit(1, Side::Sell, 100, 10), &mut fills);
    assert!(fills.is_empty());

    book.add_order(limit(2, Side::Buy, 100, 10), &mut fills);
    assert_eq!(fills.len(), 1);
    assert_eq!(fills[0].maker_id, 1);
    assert_eq!(fills[0].taker_id, 2);
    assert_eq!(fills[0].price, 100);
    assert_eq!(fills[0].qty, 10);

    assert!(book.is_empty());
}

#[test]
fn test_partial_fill() {
    let mut book = OrderBook::new();
    let mut fills = Vec::new();

    book.add_order(limit(1, Side::Sell, 100, 20), &mut fills);
    fills.clear();

    book.add_order(limit(2, Side::Buy, 100, 5), &mut fills);
    assert_eq!(fills.len(), 1);
    assert_eq!(fills[0].qty, 5);

    // 15 left resting on ask
    assert_eq!(book.depth_at(Side::Sell, 100), 15);
    assert_eq!(book.len(), 1);
}

#[test]
fn test_price_improvement() {
    let mut book = OrderBook::new();
    let mut fills = Vec::new();

    book.add_order(limit(1, Side::Sell, 95, 10), &mut fills);
    fills.clear();

    // Buy at 100 should match at 95 (maker's price)
    book.add_order(limit(2, Side::Buy, 100, 10), &mut fills);
    assert_eq!(fills.len(), 1);
    assert_eq!(fills[0].price, 95);
}

#[test]
fn test_fifo_priority() {
    let mut book = OrderBook::new();
    let mut fills = Vec::new();

    book.add_order(limit(1, Side::Sell, 100, 5), &mut fills);
    book.add_order(limit(2, Side::Sell, 100, 5), &mut fills);
    fills.clear();

    book.add_order(limit(3, Side::Buy, 100, 7), &mut fills);
    assert_eq!(fills.len(), 2);
    assert_eq!(fills[0].maker_id, 1);
    assert_eq!(fills[0].qty, 5);
    assert_eq!(fills[1].maker_id, 2);
    assert_eq!(fills[1].qty, 2);

    assert_eq!(book.depth_at(Side::Sell, 100), 3);
}

#[test]
fn test_multi_level_fill() {
    let mut book = OrderBook::new();
    let mut fills = Vec::new();

    book.add_order(limit(1, Side::Sell, 100, 5), &mut fills);
    book.add_order(limit(2, Side::Sell, 101, 5), &mut fills);
    book.add_order(limit(3, Side::Sell, 102, 5), &mut fills);
    fills.clear();

    book.add_order(limit(4, Side::Buy, 102, 12), &mut fills);
    assert_eq!(fills.len(), 3);
    assert_eq!(fills[0].price, 100);
    assert_eq!(fills[1].price, 101);
    assert_eq!(fills[2].price, 102);
    assert_eq!(fills[2].qty, 2);

    assert_eq!(book.depth_at(Side::Sell, 102), 3);
}

#[test]
fn test_market_order() {
    let mut book = OrderBook::new();
    let mut fills = Vec::new();

    book.add_order(limit(1, Side::Sell, 100, 10), &mut fills);
    book.add_order(limit(2, Side::Sell, 105, 10), &mut fills);
    fills.clear();

    book.add_order(market(3, Side::Buy, 15), &mut fills);
    assert_eq!(fills.len(), 2);
    assert_eq!(fills[0].price, 100);
    assert_eq!(fills[0].qty, 10);
    assert_eq!(fills[1].price, 105);
    assert_eq!(fills[1].qty, 5);

    // Market order remainder is discarded
    assert_eq!(book.len(), 1);
}

#[test]
fn test_cancel() {
    let mut book = OrderBook::new();
    let mut fills = Vec::new();

    book.add_order(limit(1, Side::Buy, 100, 10), &mut fills);
    assert_eq!(book.len(), 1);

    assert!(book.cancel(1));
    assert_eq!(book.len(), 0);
    assert!(book.best_bid().is_none());

    // Double cancel returns false
    assert!(!book.cancel(1));
}

#[test]
fn test_cancel_nonexistent() {
    let mut book = OrderBook::new();
    assert!(!book.cancel(999));
}

#[test]
fn test_sell_market() {
    let mut book = OrderBook::new();
    let mut fills = Vec::new();

    book.add_order(limit(1, Side::Buy, 100, 10), &mut fills);
    book.add_order(limit(2, Side::Buy, 99, 10), &mut fills);
    fills.clear();

    book.add_order(market(3, Side::Sell, 15), &mut fills);
    assert_eq!(fills.len(), 2);
    // Should match highest bid first
    assert_eq!(fills[0].price, 100);
    assert_eq!(fills[0].qty, 10);
    assert_eq!(fills[1].price, 99);
    assert_eq!(fills[1].qty, 5);
}
