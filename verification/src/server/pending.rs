//! The order in which a tick's order messages reach the exchange: each
//! carries a random tie-breaker, and they are taken by ascending
//! tie-breaker, earlier arrivals first among equal ones.
use vstd::prelude::*;
use crate::server::wire::RawOrderMsg;

verus! {

/// An order message waiting for its turn in the current tick.
#[derive(Clone, Copy)]
pub struct PendingOrder {
    pub tie_breaker: u64,
    pub client_idx: usize,
    pub msg: RawOrderMsg,
}

/// `s` with `x` placed after every trailing item whose tie-breaker does not
/// exceed its own.
pub open spec fn insert_by_tie(s: Seq<PendingOrder>, x: PendingOrder) -> Seq<PendingOrder>
    decreases s.len(),
{
    if s.len() == 0 {
        seq![x]
    } else if x.tie_breaker < s.last().tie_breaker {
        insert_by_tie(s.drop_last(), x).push(s.last())
    } else {
        s.push(x)
    }
}

/// `s` stably sorted by tie-breaker.
pub open spec fn sorted_by_tie(s: Seq<PendingOrder>) -> Seq<PendingOrder>
    decreases s.len(),
{
    if s.len() == 0 {
        s
    } else {
        insert_by_tie(sorted_by_tie(s.drop_last()), s.last())
    }
}

/// The tie-breakers of `s` never decrease.
pub open spec fn tie_ordered(s: Seq<PendingOrder>) -> bool {
    forall|i: int, j: int|
        0 <= i <= j < s.len() ==> #[trigger] s[i].tie_breaker <= #[trigger] s[j].tie_breaker
}

/// Where `insert_by_tie` puts `x`: after the last item of `s` whose
/// tie-breaker does not exceed its own.
spec fn tie_slot(s: Seq<PendingOrder>, x: PendingOrder) -> int
    decreases s.len(),
{
    if s.len() == 0 {
        0
    } else if x.tie_breaker < s.last().tie_breaker {
        tie_slot(s.drop_last(), x)
    } else {
        s.len() as int
    }
}

proof fn lemma_tie_slot(s: Seq<PendingOrder>, x: PendingOrder)
    ensures
        0 <= tie_slot(s, x) <= s.len(),
        forall|j: int| tie_slot(s, x) <= j < s.len() ==> x.tie_breaker < #[trigger] s[j].tie_breaker,
        tie_slot(s, x) == 0 || s[tie_slot(s, x) - 1].tie_breaker <= x.tie_breaker,
    decreases s.len(),
{
    if s.len() > 0 && x.tie_breaker < s.last().tie_breaker {
        let d = s.drop_last();
        lemma_tie_slot(d, x);
        assert forall|j: int| tie_slot(s, x) <= j < s.len() implies x.tie_breaker
            < #[trigger] s[j].tie_breaker by {
            if j < s.len() - 1 {
                assert(s[j] == d[j]);
            }
        }
    }
}

/// Inserting at the slot that follows the last item not above `x`, with
/// every later item above it, is what `insert_by_tie` does.
proof fn lemma_insert_at(s: Seq<PendingOrder>, x: PendingOrder, p: int)
    requires
        0 <= p <= s.len(),
        forall|j: int| p <= j < s.len() ==> x.tie_breaker < #[trigger] s[j].tie_breaker,
        p == 0 || s[p - 1].tie_breaker <= x.tie_breaker,
    ensures
        insert_by_tie(s, x) == s.insert(p, x),
    decreases s.len(),
{
    if s.len() == 0 {
        assert(s.insert(p, x) =~= seq![x]);
    } else if x.tie_breaker < s.last().tie_breaker {
        assert(p < s.len());
        lemma_insert_at(s.drop_last(), x, p);
        assert(s.drop_last().insert(p, x).push(s.last()) =~= s.insert(p, x));
    } else {
        if p < s.len() {
            assert(x.tie_breaker < s[s.len() - 1].tie_breaker);
        }
        assert(s.push(x) =~= s.insert(p, x));
    }
}

proof fn lemma_insert_keeps_order(s: Seq<PendingOrder>, x: PendingOrder)
    requires
        tie_ordered(s),
    ensures
        tie_ordered(insert_by_tie(s, x)),
{
    let p = tie_slot(s, x);
    lemma_tie_slot(s, x);
    lemma_insert_at(s, x, p);
    let t = s.insert(p, x);
    assert forall|i: int, j: int| 0 <= i <= j < t.len() implies #[trigger] t[i].tie_breaker
        <= #[trigger] t[j].tie_breaker by {
        if i < p && j >= p + 1 {
            assert(s[i].tie_breaker <= s[p - 1].tie_breaker);
        } else if i < p && j == p {
            assert(s[i].tie_breaker <= s[p - 1].tie_breaker);
        } else if i == p && j > p {
            assert(t[j] == s[j - 1]);
        } else if i > p {
            assert(t[i] == s[i - 1] && t[j] == s[j - 1]);
        }
    }
}

proof fn lemma_insert_multiset(s: Seq<PendingOrder>, x: PendingOrder)
    ensures
        insert_by_tie(s, x).to_multiset() == s.to_multiset().insert(x),
    decreases s.len(),
{
    broadcast use vstd::seq_lib::group_to_multiset_ensures;

    if s.len() == 0 {
        assert(seq![x] =~= s.push(x));
    } else if x.tie_breaker < s.last().tie_breaker {
        let d = s.drop_last();
        lemma_insert_multiset(d, x);
        assert(d.push(s.last()) =~= s);
        assert(insert_by_tie(s, x).to_multiset() =~= s.to_multiset().insert(x));
    }
}

/// Pending orders are taken in ascending order of their tie-breakers, and
/// each of them exactly once.
pub proof fn law_pending_order(s: Seq<PendingOrder>)
    ensures
        tie_ordered(sorted_by_tie(s)),
        sorted_by_tie(s).to_multiset() == s.to_multiset(),
    decreases s.len(),
{
    broadcast use vstd::seq_lib::group_to_multiset_ensures;

    if s.len() > 0 {
        let d = s.drop_last();
        law_pending_order(d);
        lemma_insert_keeps_order(sorted_by_tie(d), s.last());
        lemma_insert_multiset(sorted_by_tie(d), s.last());
        assert(d.push(s.last()) =~= s);
    }
}

/// The tick's pending orders in the order the exchange takes them: by
/// ascending tie-breaker, and among equal tie-breakers in arrival order.
pub fn order_pending(pending: Vec<PendingOrder>) -> (out: Vec<PendingOrder>)
    ensures
        out@ == sorted_by_tie(pending@),
{
    let mut out: Vec<PendingOrder> = Vec::new();
    let mut k: usize = 0;
    while k < pending.len()
        invariant
            k <= pending.len(),
            out@ == sorted_by_tie(pending@.take(k as int)),
            tie_ordered(out@),
        decreases pending.len() - k,
    {
        let x = pending[k];
        let mut p: usize = out.len();
        while p > 0 && out[p - 1].tie_breaker > x.tie_breaker
            invariant
                p <= out.len(),
                forall|j: int| p <= j < out.len() ==> x.tie_breaker < #[trigger] out@[j].tie_breaker,
            decreases p,
        {
            p = p - 1;
        }
        proof {
            lemma_insert_at(out@, x, p as int);
            lemma_insert_keeps_order(out@, x);
            assert(pending@.take(k + 1).drop_last() =~= pending@.take(k as int));
        }
        out.insert(p, x);
        k = k + 1;
    }
    assert(pending@.take(k as int) =~= pending@);
    out
}

} // verus!
