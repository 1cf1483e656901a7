//! Properties of the matching rules that hold for every book and order.
use vstd::prelude::*;
use crate::model::{
    can_trade, cancel_spec, crosses, highest, lemma_sweep_step,
    lemma_sweep_stop, lowest, next_fill, opposite, submit, sweep, BookView, Resting,
};
use crate::types::{Fill, Order, Side};

verus! {

/// Total quantity of a sequence of fills.
pub open spec fn fills_qty(fs: Seq<Fill>) -> nat
    decreases fs.len(),
{
    if fs.len() == 0 {
        0
    } else {
        fs[0].qty as nat + fills_qty(fs.drop_first())
    }
}

/// Levels are non-empty, quantities positive, and both sides finite.
pub open spec fn shape_ok(v: BookView) -> bool {
    &&& v.bids.dom().finite()
    &&& v.asks.dom().finite()
    &&& forall|s: Side, p: u64|
        #![trigger v.side(s).contains_key(p)]
        v.side(s).contains_key(p) ==> v.side(s)[p].len() > 0
    &&& forall|s: Side, p: u64, i: int|
        #![trigger v.side(s)[p][i]]
        v.side(s).contains_key(p) && 0 <= i < v.side(s)[p].len() ==> v.side(s)[p][i].qty > 0
}

/// The best bid is below the best ask, whenever both exist.
pub open spec fn uncrossed(v: BookView) -> bool {
    match (v.best(Side::Buy), v.best(Side::Sell)) {
        (Some(b), Some(a)) => b < a,
        _ => true,
    }
}

/// No resting order, indexed or not, carries the id `id`.
pub open spec fn id_absent(v: BookView, id: u64) -> bool {
    forall|s: Side, p: u64, i: int|
        #![trigger v.side(s)[p][i]]
        v.side(s).contains_key(p) && 0 <= i < v.side(s)[p].len() ==> v.side(s)[p][i].id != id
}

/// A non-empty finite set of prices has a lowest element.
pub proof fn lemma_lowest_exists(keys: Set<u64>)
    requires
        keys.finite(),
        !keys.is_empty(),
    ensures
        exists|k: u64| keys.contains(k) && forall|q: u64| keys.contains(q) ==> k <= q,
    decreases keys.len(),
{
    let x = keys.choose();
    let rest = keys.remove(x);
    if rest.is_empty() {
        assert forall|q: u64| keys.contains(q) implies x <= q by {
            if q != x {
                assert(rest.contains(q));
            }
        }
    } else {
        lemma_lowest_exists(rest);
        let lo = choose|k: u64| rest.contains(k) && forall|q: u64| rest.contains(q) ==> k <= q;
        let l = if x < lo {
            x
        } else {
            lo
        };
        assert forall|q: u64| keys.contains(q) implies l <= q by {
            if q != x {
                assert(rest.contains(q));
            }
        }
        assert(keys.contains(l));
    }
}

/// A non-empty finite set of prices has a highest element.
pub proof fn lemma_highest_exists(keys: Set<u64>)
    requires
        keys.finite(),
        !keys.is_empty(),
    ensures
        exists|k: u64| keys.contains(k) && forall|q: u64| keys.contains(q) ==> q <= k,
    decreases keys.len(),
{
    let x = keys.choose();
    let rest = keys.remove(x);
    if rest.is_empty() {
        assert forall|q: u64| keys.contains(q) implies q <= x by {
            if q != x {
                assert(rest.contains(q));
            }
        }
    } else {
        lemma_highest_exists(rest);
        let hi = choose|k: u64| rest.contains(k) && forall|q: u64| rest.contains(q) ==> q <= k;
        let h = if x > hi {
            x
        } else {
            hi
        };
        assert forall|q: u64| keys.contains(q) implies q <= h by {
            if q != x {
                assert(rest.contains(q));
            }
        }
        assert(keys.contains(h));
    }
}

/// `lowest` and `highest` of a non-empty finite set are its least and
/// greatest elements.
pub proof fn lemma_extremes(keys: Set<u64>)
    requires
        keys.finite(),
    ensures
        keys.is_empty() ==> lowest(keys) is None && highest(keys) is None,
        !keys.is_empty() ==> {
            &&& lowest(keys) is Some
            &&& keys.contains(lowest(keys)->0)
            &&& forall|q: u64| keys.contains(q) ==> lowest(keys)->0 <= q
            &&& highest(keys) is Some
            &&& keys.contains(highest(keys)->0)
            &&& forall|q: u64| keys.contains(q) ==> q <= highest(keys)->0
        },
{
    if !keys.is_empty() {
        lemma_lowest_exists(keys);
        lemma_highest_exists(keys);
    }
}

/// The best price of a side of a finite book is one of its prices, and at
/// least as good as all of them.
pub proof fn lemma_best(v: BookView, s: Side)
    requires
        v.bids.dom().finite(),
        v.asks.dom().finite(),
    ensures
        v.best(s) is None <==> v.side(s).dom().is_empty(),
        v.best(s) is Some ==> v.side(s).contains_key(v.best(s)->0),
        v.best(s) is Some ==> forall|q: u64|
            v.side(s).contains_key(q) ==> match s {
                Side::Buy => q <= v.best(s)->0,
                Side::Sell => v.best(s)->0 <= q,
            },
{
    lemma_extremes(v.bids.dom());
    lemma_extremes(v.asks.dom());
}

proof fn lemma_side_of(v: BookView, s: Side, m: crate::model::Resting, id: u64)
    ensures
        v.clear_mark(id).side(s) == crate::model::clear_mark_side(v.side(s), id),
        v.with_side(s, v.side(s)).side(opposite(s)) == v.side(opposite(s)),
{
    match s {
        Side::Buy => {},
        Side::Sell => {},
    }
}

/// A trade against the head of a level keeps the book's shape, can only
/// remove that level from its side, and leaves the prices of the other side
/// as they were.
pub proof fn lemma_take_head_shape(v: BookView, s: Side, p: u64, f: u64)
    requires
        shape_ok(v),
        v.side(s).contains_key(p),
        0 < f <= v.side(s)[p][0].qty,
    ensures
        shape_ok(v.take_head(s, p, f)),
        v.take_head(s, p, f).side(s).dom().subset_of(v.side(s).dom()),
        v.take_head(s, p, f).side(opposite(s)).dom() == v.side(opposite(s)).dom(),
{
    let q = v.side(s)[p];
    let m = q[0];
    let w = v.take_head(s, p, f);
    let os = opposite(s);
    let nq = if f == m.qty {
        q.drop_first()
    } else {
        q.update(0, Resting { id: m.id, qty: (m.qty - f) as u64, indexed: m.indexed })
    };
    let u = v.set_queue(s, p, nq);
    assert(u.side(s) == (if nq.len() == 0 {
        v.side(s).remove(p)
    } else {
        v.side(s).insert(p, nq)
    })) by {
        match s {
            Side::Buy => {},
            Side::Sell => {},
        }
    }
    assert(u.side(os) == v.side(os)) by {
        match s {
            Side::Buy => {},
            Side::Sell => {},
        }
    }
    assert(shape_ok(u)) by {
        assert forall|s2: Side, p2: u64| #[trigger] u.side(s2).contains_key(p2) implies u.side(s2)[p2].len() > 0 by {
            if s2 != s {
                assert(s2 == os);
            }
        }
        assert forall|s2: Side, p2: u64, k: int|
            u.side(s2).contains_key(p2) && 0 <= k < u.side(s2)[p2].len() implies #[trigger] u.side(s2)[p2][k].qty
            > 0 by {
            if s2 != s {
                assert(s2 == os);
            } else if p2 == p {
                if f == m.qty {
                    assert(u.side(s2)[p2][k] == q[k + 1]);
                } else if k > 0 {
                    assert(u.side(s2)[p2][k] == q[k]);
                }
            }
        }
        match s {
            Side::Buy => {},
            Side::Sell => {},
        }
    }
    if f == m.qty {
        let id = m.id;
        assert(w == u.clear_mark(id));
        lemma_side_of(u, s, m, id);
        lemma_side_of(u, os, m, id);
        assert(w.side(s).dom() =~= u.side(s).dom());
        assert(w.side(os).dom() =~= u.side(os).dom());
        assert forall|s2: Side, p2: u64| #[trigger] w.side(s2).contains_key(p2) implies w.side(s2)[p2].len() > 0 by {
            lemma_side_of(u, s2, m, id);
            assert(u.side(s2).contains_key(p2));
        }
        assert forall|s2: Side, p2: u64, k: int|
            w.side(s2).contains_key(p2) && 0 <= k < w.side(s2)[p2].len() implies #[trigger] w.side(s2)[p2][k].qty
            > 0 by {
            lemma_side_of(u, s2, m, id);
            assert(u.side(s2).contains_key(p2));
            assert(w.side(s2)[p2][k].qty == u.side(s2)[p2][k].qty);
        }
        assert(w.bids.dom().finite() && w.asks.dom().finite()) by {
            match s {
                Side::Buy => {},
                Side::Sell => {},
            }
        }
    } else {
        assert(w == u);
    }
}

/// Every fill of a sweep is for a positive quantity, for the taker, on the
/// taker's side and at a price the taker accepts; the quantities of the
/// fills and the quantity left over add up to the quantity swept.
#[verifier::rlimit(50)]
pub proof fn law_sweep_accounting(v: BookView, taker: Order, remaining: nat)
    ensures
        ({
            let r = sweep(v, taker, remaining);
            &&& r.1 + fills_qty(r.2) == remaining
            &&& forall|i: int|
                0 <= i < r.2.len() ==> {
                    &&& #[trigger] r.2[i].qty > 0
                    &&& r.2[i].taker_id == taker.id
                    &&& r.2[i].side == taker.side
                    &&& crosses(taker, r.2[i].price)
                }
        }),
    decreases remaining,
{
    if can_trade(v, taker, remaining) {
        let f = next_fill(v, taker, remaining);
        let v1 = v.take_head(opposite(taker.side), f.price, f.qty);
        lemma_sweep_step(v, taker, remaining);
        law_sweep_accounting(v1, taker, (remaining - f.qty) as nat);
        let r = sweep(v, taker, remaining);
        let r1 = sweep(v1, taker, (remaining - f.qty) as nat);
        assert(r.2.drop_first() =~= r1.2);
        assert forall|i: int| 0 <= i < r.2.len() implies {
            &&& #[trigger] r.2[i].qty > 0
            &&& r.2[i].taker_id == taker.id
            &&& r.2[i].side == taker.side
            &&& crosses(taker, r.2[i].price)
        } by {
            if i > 0 {
                assert(r.2[i] == r1.2[i - 1]);
            }
        }
    } else {
        lemma_sweep_stop(v, taker, remaining);
    }
}

/// Price priority: the fills of a sweep are at prices of the opposite side
/// as it stood before, and they come best price first (rising prices for a
/// buyer, falling prices for a seller).
pub proof fn law_sweep_price_priority(v: BookView, taker: Order, remaining: nat)
    requires
        shape_ok(v),
    ensures
        ({
            let fs = sweep(v, taker, remaining).2;
            &&& forall|i: int|
                0 <= i < fs.len() ==> v.side(opposite(taker.side)).contains_key(#[trigger] fs[i].price)
            &&& forall|i: int, j: int|
                0 <= i < j < fs.len() ==> match taker.side {
                    Side::Buy => #[trigger] fs[i].price <= #[trigger] fs[j].price,
                    Side::Sell => fs[i].price >= fs[j].price,
                }
        }),
    decreases remaining,
{
    let ms = opposite(taker.side);
    if can_trade(v, taker, remaining) {
        let f = next_fill(v, taker, remaining);
        let v1 = v.take_head(ms, f.price, f.qty);
        lemma_sweep_step(v, taker, remaining);
        lemma_take_head_shape(v, ms, f.price, f.qty);
        law_sweep_price_priority(v1, taker, (remaining - f.qty) as nat);
        lemma_best(v, ms);
        let fs = sweep(v, taker, remaining).2;
        let fs1 = sweep(v1, taker, (remaining - f.qty) as nat).2;
        assert forall|i: int| 0 <= i < fs.len() implies v.side(ms).contains_key(#[trigger] fs[i].price) by {
            if i > 0 {
                assert(fs[i] == fs1[i - 1]);
                assert(v1.side(ms).contains_key(fs1[i - 1].price));
            }
        }
        assert forall|i: int, j: int| 0 <= i < j < fs.len() implies match taker.side {
            Side::Buy => #[trigger] fs[i].price <= #[trigger] fs[j].price,
            Side::Sell => fs[i].price >= fs[j].price,
        } by {
            assert(fs[j] == fs1[j - 1]);
            assert(v.side(ms).contains_key(fs[j].price));
            if i > 0 {
                assert(fs[i] == fs1[i - 1]);
            } else {
                match taker.side {
                    Side::Buy => {},
                    Side::Sell => {},
                }
            }
        }
    } else {
        lemma_sweep_stop(v, taker, remaining);
    }
}


/// A sweep keeps the book's shape, leaves the prices of the taker's side as
/// they were, can only remove prices from the opposite side, and stops with
/// quantity left only when no further trade is possible.
pub proof fn law_sweep_sides(v: BookView, taker: Order, remaining: nat)
    requires
        shape_ok(v),
    ensures
        ({
            let r = sweep(v, taker, remaining);
            &&& shape_ok(r.0)
            &&& r.0.side(taker.side).dom() == v.side(taker.side).dom()
            &&& r.0.side(opposite(taker.side)).dom().subset_of(v.side(opposite(taker.side)).dom())
            &&& r.1 <= remaining
            &&& r.1 > 0 ==> !can_trade(r.0, taker, r.1)
        }),
    decreases remaining,
{
    let ms = opposite(taker.side);
    if can_trade(v, taker, remaining) {
        let f = next_fill(v, taker, remaining);
        let v1 = v.take_head(ms, f.price, f.qty);
        lemma_sweep_step(v, taker, remaining);
        lemma_take_head_shape(v, ms, f.price, f.qty);
        law_sweep_sides(v1, taker, (remaining - f.qty) as nat);
        assert(opposite(ms) == taker.side) by {
            match taker.side {
                Side::Buy => {},
                Side::Sell => {},
            }
        }
    } else {
        lemma_sweep_stop(v, taker, remaining);
    }
}

/// A side whose prices are a subset of another's has no better best price.
proof fn lemma_best_subset(v: BookView, w: BookView, s: Side)
    requires
        v.bids.dom().finite(),
        v.asks.dom().finite(),
        w.bids.dom().finite(),
        w.asks.dom().finite(),
        w.side(s).dom().subset_of(v.side(s).dom()),
    ensures
        w.best(s) is Some ==> v.best(s) is Some && match s {
            Side::Buy => w.best(s)->0 <= v.best(s)->0,
            Side::Sell => w.best(s)->0 >= v.best(s)->0,
        },
{
    lemma_best(v, s);
    lemma_best(w, s);
    if w.best(s) is Some {
        assert(v.side(s).contains_key(w.best(s)->0));
    }
}

/// Two views whose sides have the same prices have the same best prices.
proof fn lemma_best_same_dom(v: BookView, w: BookView, s: Side)
    requires
        w.side(s).dom() == v.side(s).dom(),
    ensures
        w.best(s) == v.best(s),
{
    match s {
        Side::Buy => {},
        Side::Sell => {},
    }
}

/// Placing an order adds its price to its side and leaves the prices of
/// the other side as they were.
proof fn lemma_place_dom(v: BookView, s: Side, p: u64, id: u64, qty: u64)
    ensures
        v.place(s, p, id, qty).side(s).dom() == v.side(s).dom().insert(p),
        v.place(s, p, id, qty).side(opposite(s)).dom() == v.side(opposite(s)).dom(),
        v.bids.dom().finite() && v.asks.dom().finite() ==> v.place(s, p, id, qty).bids.dom().finite()
            && v.place(s, p, id, qty).asks.dom().finite(),
{
    let u = v.clear_mark(id);
    assert(u.bids.dom() =~= v.bids.dom());
    assert(u.asks.dom() =~= v.asks.dom());
    match s {
        Side::Buy => {
            assert(v.place(s, p, id, qty).bids.dom() =~= v.bids.dom().insert(p));
        },
        Side::Sell => {
            assert(v.place(s, p, id, qty).asks.dom() =~= v.asks.dom().insert(p));
        },
    }
}

/// Submitting an order never leaves the book crossed: matching runs until
/// the best opposite price no longer crosses, and only then does a limit
/// order rest.
pub proof fn law_submit_uncrossed(v: BookView, o: Order)
    requires
        shape_ok(v),
        uncrossed(v),
    ensures
        uncrossed(submit(v, o).0),
{
    let ms = opposite(o.side);
    let r = sweep(v, o, o.qty as nat);
    law_sweep_sides(v, o, o.qty as nat);
    assert(opposite(ms) == o.side) by {
        match o.side {
            Side::Buy => {},
            Side::Sell => {},
        }
    }
    lemma_best_same_dom(v, r.0, o.side);
    lemma_best_subset(v, r.0, ms);
    lemma_best(v, Side::Buy);
    lemma_best(v, Side::Sell);
    lemma_best(r.0, Side::Buy);
    lemma_best(r.0, Side::Sell);
    if crate::model::rests(v, o) {
        let w = r.0.place(o.side, o.price, o.id, r.1 as u64);
        lemma_place_dom(r.0, o.side, o.price, o.id, r.1 as u64);
        lemma_best_same_dom(r.0, w, ms);
        lemma_best(w, o.side);
        // the opposite side does not cross the resting price
        if r.0.best(ms) is Some {
            let a = r.0.best(ms)->0;
            assert(r.0.side(ms)[a].len() > 0);
            assert(r.0.side(ms)[a][0].qty > 0);
            assert(!crosses(o, a));
        }
        match o.side {
            Side::Buy => {
                if w.best(Side::Buy) is Some && w.best(Side::Sell) is Some {
                    let b = w.best(Side::Buy)->0;
                    assert(w.side(Side::Buy).contains_key(b));
                    if b != o.price {
                        assert(r.0.side(Side::Buy).contains_key(b));
                    }
                }
            },
            Side::Sell => {
                if w.best(Side::Buy) is Some && w.best(Side::Sell) is Some {
                    let a = w.best(Side::Sell)->0;
                    assert(w.side(Side::Sell).contains_key(a));
                    if a != o.price {
                        assert(r.0.side(Side::Sell).contains_key(a));
                    }
                }
            },
        }
    } else {
        match o.side {
            Side::Buy => {},
            Side::Sell => {},
        }
    }
}


/// Cancelling never leaves the book crossed.
pub proof fn law_cancel_uncrossed(v: BookView, id: u64)
    requires
        shape_ok(v),
        uncrossed(v),
    ensures
        uncrossed(cancel_spec(v, id).0),
{
    if v.has_indexed(id) {
        let (s, p, i) = choose|s: Side, p: u64, i: int| v.indexed_at(s, p, i, id);
        let w = v.remove_at(s, p, i);
        let os = opposite(s);
        assert(w.side(os) == v.side(os)) by {
            match s {
                Side::Buy => {},
                Side::Sell => {},
            }
        }
        assert(w.side(s).dom().subset_of(v.side(s).dom())) by {
            match s {
                Side::Buy => {},
                Side::Sell => {},
            }
        }
        assert(w.bids.dom().finite() && w.asks.dom().finite()) by {
            match s {
                Side::Buy => {},
                Side::Sell => {},
            }
        }
        lemma_best_subset(v, w, s);
        lemma_best_same_dom(v, w, os);
        match s {
            Side::Buy => {},
            Side::Sell => {},
        }
    }
}

/// Once an order has been cancelled, cancelling the same id again finds
/// nothing.
pub proof fn law_cancel_twice(v: BookView, id: u64)
    requires
        v.wf(),
    ensures
        !cancel_spec(cancel_spec(v, id).0, id).1,
{
    if v.has_indexed(id) {
        let (s, p, i) = choose|s: Side, p: u64, i: int| v.indexed_at(s, p, i, id);
        let w = v.remove_at(s, p, i);
        let q = v.side(s)[p];
        if w.has_indexed(id) {
            let (s2, p2, i2) = choose|s2: Side, p2: u64, i2: int| w.indexed_at(s2, p2, i2, id);
            if s2 == s && p2 == p {
                assert(w.side(s)[p] == q.remove(i)) by {
                    match s {
                        Side::Buy => {},
                        Side::Sell => {},
                    }
                }
                let j = if i2 < i {
                    i2
                } else {
                    i2 + 1
                };
                assert(w.side(s)[p][i2] == q[j]);
                assert(v.indexed_at(s, p, j, id));
            } else {
                assert(w.side(s2)[p2] == v.side(s2)[p2]) by {
                    match s {
                        Side::Buy => {},
                        Side::Sell => {},
                    }
                    if s2 != s {
                        assert(s2 == opposite(s));
                    }
                }
                assert(v.indexed_at(s2, p2, i2, id));
            }
        }
    }
}

/// Cancelling an order that has just come to rest, under an id that was
/// nowhere in the book, gives back the book as it was.
pub proof fn law_cancel_undoes_place(v: BookView, s: Side, p: u64, id: u64, qty: u64)
    requires
        shape_ok(v),
        id_absent(v, id),
    ensures
        cancel_spec(v.place(s, p, id, qty), id) == (v, true),
{
    let os = opposite(s);
    let u = v.clear_mark(id);
    assert(u == v) by {
        assert forall|k: u64| #[trigger] v.bids.contains_key(k) implies u.bids[k] =~= v.bids[k] by {
            assert forall|i: int| 0 <= i < v.bids[k].len() implies #[trigger] u.bids[k][i] == v.bids[k][i] by {
                assert(v.side(Side::Buy)[k][i].id != id);
            }
        }
        assert forall|k: u64| #[trigger] v.asks.contains_key(k) implies u.asks[k] =~= v.asks[k] by {
            assert forall|i: int| 0 <= i < v.asks[k].len() implies #[trigger] u.asks[k][i] == v.asks[k][i] by {
                assert(v.side(Side::Sell)[k][i].id != id);
            }
        }
        assert(u.bids =~= v.bids);
        assert(u.asks =~= v.asks);
    }
    let r = Resting { id, qty, indexed: true };
    let old_q = if v.side(s).contains_key(p) {
        v.side(s)[p]
    } else {
        Seq::<Resting>::empty()
    };
    let nq = old_q.push(r);
    let w = v.place(s, p, id, qty);
    assert(w.side(s) == v.side(s).insert(p, nq)) by {
        if !v.side(s).contains_key(p) {
            assert(nq =~= seq![r]);
        }
        match s {
            Side::Buy => {},
            Side::Sell => {},
        }
    }
    assert(w.side(os) == v.side(os)) by {
        match s {
            Side::Buy => {},
            Side::Sell => {},
        }
    }
    let k = old_q.len() as int;
    assert(w.indexed_at(s, p, k, id));
    let (cs, cp, ci) = choose|s2: Side, p2: u64, i2: int| w.indexed_at(s2, p2, i2, id);
    assert(cs == s && cp == p && ci == k) by {
        if cs != s || cp != p {
            assert(w.side(cs)[cp] == v.side(cs)[cp]) by {
                if cs != s {
                    assert(cs == os);
                }
            }
            assert(v.side(cs)[cp][ci].id != id);
        } else if ci != k {
            assert(w.side(s)[p][ci] == old_q[ci]);
            assert(v.side(s)[p][ci].id != id);
        }
    }
    let back = w.remove_at(s, p, k);
    assert(nq.remove(k) =~= old_q);
    if v.side(s).contains_key(p) {
        assert(back.side(s) =~= v.side(s));
    } else {
        assert(old_q.len() == 0);
        assert(back.side(s) =~= v.side(s));
    }
    assert(back.side(os) == v.side(os)) by {
        match s {
            Side::Buy => {},
            Side::Sell => {},
        }
    }
    match s {
        Side::Buy => {
            assert(back == v);
        },
        Side::Sell => {
            assert(back == v);
        },
    }
}


/// Every resting order of `v` has an id below `next_id` and at most
/// `max_qty` lots, and no queue holds more than `max_len` orders.
pub open spec fn entries_within(v: BookView, next_id: u64, max_qty: u64, max_len: nat) -> bool {
    &&& forall|s: Side, p: u64, i: int|
        #![trigger v.side(s)[p][i]]
        v.side(s).contains_key(p) && 0 <= i < v.side(s)[p].len() ==> v.side(s)[p][i].id < next_id
            && v.side(s)[p][i].qty <= max_qty
    &&& forall|s: Side, p: u64|
        #![trigger v.side(s)[p]]
        v.side(s).contains_key(p) ==> v.side(s)[p].len() <= max_len
}

/// Clearing index marks keeps every id, quantity and queue length.
proof fn lemma_clear_mark_within(v: BookView, id: u64, n: u64, mq: u64, ml: nat)
    requires
        entries_within(v, n, mq, ml),
    ensures
        entries_within(v.clear_mark(id), n, mq, ml),
        v.clear_mark(id).bids.dom() == v.bids.dom(),
        v.clear_mark(id).asks.dom() == v.asks.dom(),
{
    let w = v.clear_mark(id);
    assert(w.bids.dom() =~= v.bids.dom());
    assert(w.asks.dom() =~= v.asks.dom());
    assert forall|s: Side, p: u64, i: int|
        w.side(s).contains_key(p) && 0 <= i < w.side(s)[p].len() implies #[trigger] w.side(s)[p][i].id
        < n && w.side(s)[p][i].qty <= mq by {
        match s {
            Side::Buy => {
                assert(v.side(s)[p][i].id < n);
            },
            Side::Sell => {
                assert(v.side(s)[p][i].id < n);
            },
        }
    }
    assert forall|s: Side, p: u64| w.side(s).contains_key(p) implies #[trigger] w.side(s)[p].len()
        <= ml by {
        match s {
            Side::Buy => {
                assert(v.side(s)[p].len() <= ml);
            },
            Side::Sell => {
                assert(v.side(s)[p].len() <= ml);
            },
        }
    }
}

/// A trade against the head of a level keeps every bound on the entries.
proof fn lemma_take_head_within(v: BookView, s: Side, p: u64, f: u64, n: u64, mq: u64, ml: nat)
    requires
        entries_within(v, n, mq, ml),
        v.side(s).contains_key(p),
        v.side(s)[p].len() > 0,
        0 < f <= v.side(s)[p][0].qty,
    ensures
        entries_within(v.take_head(s, p, f), n, mq, ml),
{
    let q = v.side(s)[p];
    let m = q[0];
    let os = opposite(s);
    let nq = if f == m.qty {
        q.drop_first()
    } else {
        q.update(0, Resting { id: m.id, qty: (m.qty - f) as u64, indexed: m.indexed })
    };
    let u = v.set_queue(s, p, nq);
    assert(u.side(s) == (if nq.len() == 0 {
        v.side(s).remove(p)
    } else {
        v.side(s).insert(p, nq)
    })) by {
        match s {
            Side::Buy => {},
            Side::Sell => {},
        }
    }
    assert(u.side(os) == v.side(os)) by {
        match s {
            Side::Buy => {},
            Side::Sell => {},
        }
    }
    assert(q[0].id < n && q[0].qty <= mq);
    assert(q.len() <= ml);
    assert(entries_within(u, n, mq, ml)) by {
        assert forall|s2: Side, p2: u64, k: int|
            u.side(s2).contains_key(p2) && 0 <= k < u.side(s2)[p2].len() implies #[trigger] u.side(
            s2,
        )[p2][k].id < n && u.side(s2)[p2][k].qty <= mq by {
            if s2 != s {
                assert(s2 == os);
                assert(v.side(s2)[p2][k].id < n);
            } else if p2 == p {
                if f == m.qty {
                    assert(u.side(s2)[p2][k] == q[k + 1]);
                } else if k > 0 {
                    assert(u.side(s2)[p2][k] == q[k]);
                }
            } else {
                assert(v.side(s2)[p2][k].id < n);
            }
        }
        assert forall|s2: Side, p2: u64| u.side(s2).contains_key(p2) implies #[trigger] u.side(
            s2,
        )[p2].len() <= ml by {
            if s2 != s {
                assert(s2 == os);
                assert(v.side(s2)[p2].len() <= ml);
            } else if p2 != p {
                assert(v.side(s2)[p2].len() <= ml);
            }
        }
    }
    if f == m.qty {
        lemma_clear_mark_within(u, m.id, n, mq, ml);
    }
}

/// Matching keeps every bound on the resting entries.
pub proof fn lemma_sweep_within(v: BookView, taker: Order, remaining: nat, n: u64, mq: u64, ml: nat)
    requires
        entries_within(v, n, mq, ml),
    ensures
        entries_within(sweep(v, taker, remaining).0, n, mq, ml),
    decreases remaining,
{
    let ms = opposite(taker.side);
    if can_trade(v, taker, remaining) {
        let f = next_fill(v, taker, remaining);
        let v1 = v.take_head(ms, f.price, f.qty);
        lemma_sweep_step(v, taker, remaining);
        lemma_take_head_within(v, ms, f.price, f.qty, n, mq, ml);
        lemma_sweep_within(v1, taker, (remaining - f.qty) as nat, n, mq, ml);
    } else {
        lemma_sweep_stop(v, taker, remaining);
    }
}

/// Placing an order under a bounded id and quantity lengthens one queue by one.
proof fn lemma_place_within(v: BookView, s: Side, p: u64, id: u64, qty: u64, n: u64, mq: u64, ml: nat)
    requires
        entries_within(v, n, mq, ml),
        id < n,
        qty <= mq,
    ensures
        entries_within(v.place(s, p, id, qty), n, mq, ml + 1),
{
    let u = v.clear_mark(id);
    lemma_clear_mark_within(v, id, n, mq, ml);
    let r = Resting { id, qty, indexed: true };
    let m = u.side(s);
    let nq = if m.contains_key(p) {
        m[p].push(r)
    } else {
        seq![r]
    };
    let w = v.place(s, p, id, qty);
    let os = opposite(s);
    assert(w.side(s) == m.insert(p, nq) && w.side(os) == u.side(os)) by {
        match s {
            Side::Buy => {},
            Side::Sell => {},
        }
    }
    assert forall|s2: Side, p2: u64, k: int|
        w.side(s2).contains_key(p2) && 0 <= k < w.side(s2)[p2].len() implies #[trigger] w.side(
        s2,
    )[p2][k].id < n && w.side(s2)[p2][k].qty <= mq by {
        if s2 != s {
            assert(s2 == os);
            assert(u.side(s2)[p2][k].id < n);
        } else if p2 == p {
            if m.contains_key(p) && k < m[p].len() {
                assert(w.side(s2)[p2][k] == m[p][k]);
                assert(u.side(s2)[p2][k].id < n);
            }
        } else {
            assert(u.side(s2)[p2][k].id < n);
        }
    }
    assert forall|s2: Side, p2: u64| w.side(s2).contains_key(p2) implies #[trigger] w.side(
        s2,
    )[p2].len() <= ml + 1 by {
        if s2 != s {
            assert(s2 == os);
            assert(u.side(s2)[p2].len() <= ml);
        } else if p2 == p {
            if m.contains_key(p) {
                assert(u.side(s2)[p2].len() <= ml);
            }
        } else {
            assert(u.side(s2)[p2].len() <= ml);
        }
    }
}

/// Submitting an order under a fresh id, for at most `max_qty` lots,
/// lengthens any queue by at most one and keeps the other bounds.
pub proof fn lemma_submit_within(v: BookView, o: Order, n: u64, mq: u64, ml: nat)
    requires
        entries_within(v, n, mq, ml),
        o.id < n,
        o.qty <= mq,
    ensures
        entries_within(submit(v, o).0, n, mq, ml + 1),
{
    let r = sweep(v, o, o.qty as nat);
    lemma_sweep_within(v, o, o.qty as nat, n, mq, ml);
    law_sweep_accounting(v, o, o.qty as nat);
    assert(entries_within(r.0, n, mq, ml + 1));
    if crate::model::rests(v, o) {
        lemma_place_within(r.0, o.side, o.price, o.id, r.1 as u64, n, mq, ml);
    }
}

/// The sum of the quantities of a queue is at most its length times the
/// largest quantity.
pub proof fn lemma_queue_qty_bound(q: Seq<Resting>, mq: u64)
    requires
        forall|i: int| 0 <= i < q.len() ==> #[trigger] q[i].qty <= mq,
    ensures
        crate::model::queue_qty(q) <= q.len() * mq,
    decreases q.len(),
{
    if q.len() > 0 {
        let d = q.drop_last();
        assert forall|i: int| 0 <= i < d.len() implies #[trigger] d[i].qty <= mq by {
            assert(d[i] == q[i]);
        }
        lemma_queue_qty_bound(d, mq);
        assert(q.last().qty <= mq);
        let l = q.len() as int;
        assert((l - 1) * mq + mq == l * mq) by (nonlinear_arith);
    }
}

/// An immediate-or-cancel order never stays on the book: submitting it
/// under an id above every resting id and then cancelling that id leaves
/// the book exactly as matching alone left it, and the cancel finds an
/// order precisely when a remainder had come to rest.
pub proof fn law_ioc_leaves_no_rest(v: BookView, o: Order, mq: u64, ml: nat)
    requires
        shape_ok(v),
        entries_within(v, o.id, mq, ml),
    ensures
        cancel_spec(submit(v, o).0, o.id) == (sweep(v, o, o.qty as nat).0, crate::model::rests(v, o)),
{
    let r = sweep(v, o, o.qty as nat);
    lemma_sweep_within(v, o, o.qty as nat, o.id, mq, ml);
    law_sweep_sides(v, o, o.qty as nat);
    assert(id_absent(r.0, o.id));
    if crate::model::rests(v, o) {
        law_cancel_undoes_place(r.0, o.side, o.price, o.id, r.1 as u64);
    } else {
        assert(!r.0.has_indexed(o.id));
    }
}


/// The bounds on the entries may always be loosened.
pub proof fn lemma_within_weaken(v: BookView, n1: u64, n2: u64, mq: u64, ml1: nat, ml2: nat)
    requires
        entries_within(v, n1, mq, ml1),
        n1 <= n2,
        ml1 <= ml2,
    ensures
        entries_within(v, n2, mq, ml2),
{
}

/// Under the bounds, the quantity resting at any level is at most the
/// longest queue times the largest quantity.
pub proof fn lemma_level_qty_within(v: BookView, n: u64, mq: u64, ml: nat, s: Side, p: u64)
    requires
        entries_within(v, n, mq, ml),
    ensures
        v.level_qty(s, p) <= ml * mq,
{
    if v.side(s).contains_key(p) {
        let q = v.side(s)[p];
        assert forall|i: int| 0 <= i < q.len() implies #[trigger] q[i].qty <= mq by {
            assert(v.side(s)[p][i].qty <= mq);
        }
        lemma_queue_qty_bound(q, mq);
        assert(q.len() <= ml);
        assert(q.len() * mq <= ml * mq) by (nonlinear_arith)
            requires
                q.len() <= ml,
        ;
    }
}


/// Every price of `v`, on either side, is at most `max_price`.
pub open spec fn prices_within(v: BookView, max_price: u64) -> bool {
    forall|s: Side, p: u64| #[trigger] v.side(s).contains_key(p) ==> p <= max_price
}

/// Matching keeps the prices of a book bounded, and trades only at prices
/// that were on the book.
pub proof fn lemma_sweep_prices(v: BookView, taker: Order, remaining: nat, max_price: u64)
    requires
        shape_ok(v),
        prices_within(v, max_price),
    ensures
        prices_within(sweep(v, taker, remaining).0, max_price),
        forall|i: int|
            0 <= i < sweep(v, taker, remaining).2.len() ==> #[trigger] sweep(
                v,
                taker,
                remaining,
            ).2[i].price <= max_price,
{
    let r = sweep(v, taker, remaining);
    let ms = opposite(taker.side);
    law_sweep_sides(v, taker, remaining);
    law_sweep_price_priority(v, taker, remaining);
    assert(opposite(ms) == taker.side) by {
        match taker.side {
            Side::Buy => {},
            Side::Sell => {},
        }
    }
    assert forall|s: Side, p: u64| #[trigger] r.0.side(s).contains_key(p) implies p <= max_price by {
        if s == taker.side {
            assert(v.side(s).contains_key(p));
        } else {
            assert(s == ms) by {
                match s {
                    Side::Buy => {},
                    Side::Sell => {},
                }
                match taker.side {
                    Side::Buy => {},
                    Side::Sell => {},
                }
            }
            assert(v.side(s).contains_key(p));
        }
    }
    assert forall|i: int| 0 <= i < r.2.len() implies #[trigger] r.2[i].price <= max_price by {
        assert(v.side(ms).contains_key(r.2[i].price));
    }
}

/// Submitting an order at a bounded price keeps the prices of a book
/// bounded.
pub proof fn lemma_submit_prices(v: BookView, o: Order, max_price: u64)
    requires
        shape_ok(v),
        prices_within(v, max_price),
        o.price <= max_price,
    ensures
        prices_within(submit(v, o).0, max_price),
{
    let r = sweep(v, o, o.qty as nat);
    lemma_sweep_prices(v, o, o.qty as nat, max_price);
    law_sweep_sides(v, o, o.qty as nat);
    if crate::model::rests(v, o) {
        lemma_place_dom(r.0, o.side, o.price, o.id, r.1 as u64);
        let w = r.0.place(o.side, o.price, o.id, r.1 as u64);
        assert forall|s: Side, p: u64| #[trigger] w.side(s).contains_key(p) implies p <= max_price by {
            if s == o.side {
                if p != o.price {
                    assert(r.0.side(s).contains_key(p));
                }
            } else {
                assert(s == opposite(o.side)) by {
                    match s {
                        Side::Buy => {},
                        Side::Sell => {},
                    }
                    match o.side {
                        Side::Buy => {},
                        Side::Sell => {},
                    }
                }
                assert(r.0.side(s).contains_key(p));
            }
        }
    }
}

/// Adding one more fill at the back adds its quantity.
pub proof fn lemma_fills_qty_push(fs: Seq<Fill>)
    requires
        fs.len() > 0,
    ensures
        fills_qty(fs) == fills_qty(fs.drop_last()) + fs.last().qty,
    decreases fs.len(),
{
    if fs.len() > 1 {
        let df = fs.drop_first();
        lemma_fills_qty_push(df);
        assert(df.drop_last() =~= fs.drop_last().drop_first());
    } else {
        assert(fs.drop_first() =~= Seq::<Fill>::empty());
        assert(fs.drop_last() =~= Seq::<Fill>::empty());
    }
}


/// Price-time priority: while an order can trade, its next fill is against
/// the oldest order resting at the best opposite price, at that price, for
/// as much as both have.
pub proof fn law_first_fill_is_oldest_at_best(v: BookView, taker: Order, remaining: nat)
    requires
        can_trade(v, taker, remaining),
    ensures
        ({
            let ms = opposite(taker.side);
            let p = v.best(ms)->0;
            let m = v.side(ms)[p][0];
            let f = sweep(v, taker, remaining).2[0];
            &&& sweep(v, taker, remaining).2.len() > 0
            &&& f.maker_id == m.id
            &&& f.price == p
            &&& f.qty == (if remaining < m.qty {
                remaining
            } else {
                m.qty as nat
            })
            &&& f.taker_id == taker.id
        }),
{
    lemma_sweep_step(v, taker, remaining);
}

} // verus!
