use matching_engine::arena::{Arena, Node, INVALID};

fn node(id: u64) -> Node {
    Node { id, qty: id * 10, prev: INVALID, next: INVALID }
}

#[test]
fn arena_reuses_most_recently_freed_slot() {
    let mut a = Arena::with_capacity(4);
    let i0 = a.alloc_node(node(1));
    let i1 = a.alloc_node(node(2));
    let i2 = a.alloc_node(node(3));
    assert_eq!((i0, i1, i2), (0, 1, 2));
    a.dealloc(i0);
    a.dealloc(i2);
    // Last freed, first reused.
    assert_eq!(a.alloc_node(node(4)), i2);
    assert_eq!(a.alloc_node(node(5)), i0);
    // No free slot left: the arena grows.
    assert_eq!(a.alloc_node(node(6)), 3);
    assert_eq!(a.get(i1).id, 2);
    assert_eq!(a.get(i2).id, 4);
    assert_eq!(a.get(i0).qty, 50);
    a.get_mut(3).qty = 7;
    assert_eq!(a.get(3).qty, 7);
}
