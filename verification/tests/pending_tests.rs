use matching_engine::server::pending::{order_pending, PendingOrder};
use matching_engine::server::wire::{RawOrderMsg, ORDER_MSG_NEW};

fn pending(tie_breaker: u64, client_idx: usize, client_order_id: u64) -> PendingOrder {
    PendingOrder {
        tie_breaker,
        client_idx,
        msg: RawOrderMsg {
            msg_type: ORDER_MSG_NEW,
            side: 0,
            order_type: 0,
            client_order_id,
            price_bits: 0,
            qty: 1,
            cancel_order_id: 0,
        },
    }
}

fn keys(v: &[PendingOrder]) -> Vec<(u64, usize, u64)> {
    v.iter().map(|p| (p.tie_breaker, p.client_idx, p.msg.client_order_id)).collect()
}

#[test]
fn pending_orders_by_ascending_tie_breaker() {
    let input = vec![pending(30, 0, 1), pending(10, 1, 2), pending(20, 2, 3), pending(u64::MAX, 0, 4), pending(0, 3, 5)];
    let mut expected = input.clone();
    expected.sort_by_key(|p| p.tie_breaker);
    let out = order_pending(input);
    assert_eq!(keys(&out), keys(&expected));
    assert_eq!(keys(&out), vec![(0, 3, 5), (10, 1, 2), (20, 2, 3), (30, 0, 1), (u64::MAX, 0, 4)]);
}

#[test]
fn pending_orders_keep_arrival_order_on_ties() {
    let input = vec![pending(5, 0, 1), pending(3, 1, 2), pending(5, 2, 3), pending(3, 3, 4), pending(5, 4, 5)];
    let mut expected = input.clone();
    expected.sort_by_key(|p| p.tie_breaker);
    let out = order_pending(input);
    assert_eq!(keys(&out), keys(&expected));
    assert_eq!(keys(&out), vec![(3, 1, 2), (3, 3, 4), (5, 0, 1), (5, 2, 3), (5, 4, 5)]);
}

#[test]
fn pending_orders_edge_sizes() {
    assert!(order_pending(Vec::new()).is_empty());
    let one = order_pending(vec![pending(7, 2, 9)]);
    assert_eq!(keys(&one), vec![(7, 2, 9)]);
}
