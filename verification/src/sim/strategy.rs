//! Stale-quote arbitrage strategy.
use vstd::prelude::*;
use crate::sim::exchange::L1;
use crate::types::{Price, Qty, Side};

verus! {

/// An order the strategy wants to send: an IOC-style limit order.
#[derive(Debug, Clone, Copy)]
pub enum Action {
    Buy { qty: Qty, limit_price: Price },
    Sell { qty: Qty, limit_price: Price },
}

impl Action {
    pub fn side(&self) -> (s: Side)
        ensures
            s == (match *self {
                Action::Buy { .. } => Side::Buy,
                Action::Sell { .. } => Side::Sell,
            }),
    {
        match self {
            Action::Buy { .. } => Side::Buy,
            Action::Sell { .. } => Side::Sell,
        }
    }

    pub open spec fn spec_qty(self) -> Qty {
        match self {
            Action::Buy { qty, .. } => qty,
            Action::Sell { qty, .. } => qty,
        }
    }

    pub open spec fn spec_limit_price(self) -> Price {
        match self {
            Action::Buy { limit_price, .. } => limit_price,
            Action::Sell { limit_price, .. } => limit_price,
        }
    }

    pub fn qty(&self) -> (q: Qty)
        ensures
            q == self.spec_qty(),
    {
        match self {
            Action::Buy { qty, .. } | Action::Sell { qty, .. } => *qty,
        }
    }

    pub fn limit_price(&self) -> (p: Price)
        ensures
            p == self.spec_limit_price(),
    {
        match self {
            Action::Buy { limit_price, .. } | Action::Sell { limit_price, .. } => *limit_price,
        }
    }
}

/// `a + b`, capped at `u64::MAX`.
pub open spec fn sat_add(a: u64, b: u64) -> u64 {
    if a + b > u64::MAX {
        u64::MAX
    } else {
        (a + b) as u64
    }
}

/// Stale-quote arbitrage strategy.
///
/// The strategy treats `reference_mid` as the leading fair value and the target
/// book's best bid/ask as executable stale quotes. It sends marketable IOC-style
/// limit orders only when the expected edge exceeds `edge_threshold`.
pub struct Strategy {
    edge_threshold: Price,
    order_qty: Qty,
    max_position: i64,
}

impl Strategy {
    pub closed spec fn edge(&self) -> Price {
        self.edge_threshold
    }

    pub closed spec fn lot(&self) -> Qty {
        self.order_qty
    }

    pub closed spec fn limit(&self) -> i64 {
        self.max_position
    }

    /// The decision the strategy takes on a snapshot, given the position.
    pub open spec fn decide_spec(&self, l1: L1, position: i64) -> Option<Action> {
        if !l1.spec_valid() {
            None
        } else if l1.reference_mid > sat_add(l1.ask, self.edge()) && position < self.limit() {
            Some(Action::Buy { qty: self.lot(), limit_price: l1.ask })
        } else if l1.bid > sat_add(l1.reference_mid, self.edge()) && position > -self.limit() {
            Some(Action::Sell { qty: self.lot(), limit_price: l1.bid })
        } else {
            None
        }
    }

    /// The strategy as `new` makes it.
    pub closed spec fn initial(max_position: i64) -> Strategy {
        Strategy { edge_threshold: 2, order_qty: 1, max_position }
    }

    pub fn new(max_position: i64) -> (s: Self)
        ensures
            s == Strategy::initial(max_position),
            s.edge() == 2,
            s.lot() == 1,
            s.limit() == max_position,
    {
        Self { edge_threshold: 2, order_qty: 1, max_position }
    }

    /// The strategy that `new(max_position)` makes trades one lot at the
    /// touch: it buys at the ask when the reference mid is more than two
    /// ticks above the ask and the position is below `max_position`,
    /// otherwise sells at the bid when the bid is more than two ticks above
    /// the reference mid and the position is above `-max_position`, and
    /// otherwise does nothing; an invalid snapshot is never traded.
    pub proof fn law_decide(max_position: i64, l1: L1, position: i64)
        ensures
            Strategy::initial(max_position).decide_spec(l1, position) == (if !(l1.bid > 0 && l1.ask > 0
                && l1.ask > l1.bid) {
                None
            } else if l1.reference_mid > l1.ask + 2 && position < max_position {
                Some(Action::Buy { qty: 1, limit_price: l1.ask })
            } else if l1.bid > l1.reference_mid + 2 && position > -max_position {
                Some(Action::Sell { qty: 1, limit_price: l1.bid })
            } else {
                None
            }),
    {
    }

    pub fn decide(&mut self, l1: &L1, position: i64, _current_tick: u64) -> (a: Option<Action>)
        requires
            old(self).limit() > i64::MIN,
        ensures
            *final(self) == *old(self),
            a == old(self).decide_spec(*l1, position),
    {
        if !l1.valid() {
            return None;
        }

        let reference = l1.reference_mid;

        if reference > l1.ask.saturating_add(self.edge_threshold) && position < self.max_position {
            return Some(Action::Buy { qty: self.order_qty, limit_price: l1.ask });
        }

        if l1.bid > reference.saturating_add(self.edge_threshold) && position > -self.max_position {
            return Some(Action::Sell { qty: self.order_qty, limit_price: l1.bid });
        }

        None
    }
}

} // verus!
