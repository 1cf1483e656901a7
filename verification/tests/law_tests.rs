use matching_engine::orderbook::OrderBook;
use matching_engine::{Fill, Order, OrderType, Side};

fn limit(id: u64, side: Side, price: u64, qty: u64) -> Order {
    Order { id, side, price, qty, order_type: OrderType::Limit }
}

#[test]
fn book_is_never_crossed_after_submit() {
    let mut book = OrderBook::new();
    let mut fills: Vec<Fill> = Vec::new();
    book.add_order(limit(1, Side::Sell, 101, 5), &mut fills);
    book.add_order(limit(2, Side::Sell, 103, 5), &mut fills);
    book.add_order(limit(3, Side::Buy, 102, 8), &mut fills);
    assert_eq!(book.best_bid(), Some(102));
    assert_eq!(book.best_ask(), Some(103));
    assert!(book.best_bid().unwrap() < book.best_ask().unwrap());
}

#[test]
fn fills_account_for_the_order_quantity() {
    let mut book = OrderBook::new();
    let mut fills: Vec<Fill> = Vec::new();
    book.add_order(limit(1, Side::Sell, 100, 3), &mut fills);
    book.add_order(limit(2, Side::Sell, 101, 4), &mut fills);
    book.add_order(limit(3, Side::Sell, 102, 5), &mut fills);
    fills.clear();
    book.add_order(limit(4, Side::Buy, 101, 10), &mut fills);
    let filled: u64 = fills.iter().map(|f| f.qty).sum();
    assert_eq!(filled, 7);
    assert!(fills.iter().all(|f| f.taker_id == 4 && f.side == Side::Buy && f.price <= 101));
    // The remainder rests at the limit.
    assert_eq!(book.depth_at(Side::Buy, 101), 3);
}

#[test]
fn fills_come_best_price_first() {
    let mut book = OrderBook::new();
    let mut fills: Vec<Fill> = Vec::new();
    for (id, p) in [(1u64, 105u64), (2, 103), (3, 104), (4, 103)] {
        book.add_order(limit(id, Side::Sell, p, 1), &mut fills);
    }
    fills.clear();
    book.add_order(limit(9, Side::Buy, 110, 4), &mut fills);
    let seen: Vec<(u64, u64)> = fills.iter().map(|f| (f.price, f.maker_id)).collect();
    assert_eq!(seen, vec![(103, 2), (103, 4), (104, 3), (105, 1)]);
}

#[test]
fn cancel_undoes_a_resting_order() {
    let mut book = OrderBook::new();
    let mut fills: Vec<Fill> = Vec::new();
    book.add_order(limit(1, Side::Buy, 99, 2), &mut fills);
    book.add_order(limit(2, Side::Sell, 105, 2), &mut fills);
    book.add_order(limit(3, Side::Buy, 100, 4), &mut fills);
    assert!(book.cancel(3));
    assert_eq!(book.best_bid(), Some(99));
    assert_eq!(book.len(), 2);
    assert_eq!(book.depth_at(Side::Buy, 100), 0);
}

#[test]
fn second_cancel_finds_nothing() {
    let mut book = OrderBook::new();
    let mut fills: Vec<Fill> = Vec::new();
    book.add_order(limit(7, Side::Sell, 50, 1), &mut fills);
    assert!(book.cancel(7));
    assert!(!book.cancel(7));
    assert!(book.is_empty());
}

#[test]
fn spread_of_a_quoted_book() {
    let mut book = OrderBook::with_capacity(8);
    let mut fills: Vec<Fill> = Vec::new();
    assert_eq!(book.spread(), None);
    book.add_order(limit(1, Side::Buy, 95, 1), &mut fills);
    assert_eq!(book.spread(), None);
    book.add_order(limit(2, Side::Sell, 98, 1), &mut fills);
    assert_eq!(book.spread(), Some(3));
    let d = OrderBook::default();
    assert!(d.is_empty());
}
