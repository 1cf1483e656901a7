//! The order gateway's rules: what each client's account records, how a
//! new order is handled and answered, and how a position is closed out.
use vstd::prelude::*;
use crate::laws::{fills_qty, lemma_fills_qty_push};
use crate::server::wire::{
    le_bytes, lemma_pow256_values, write_le,
    spec_wire_to_side, wire_to_side, EXEC_CANCEL_ACK, EXEC_FILL, EXEC_NEW_ACK, EXEC_PARTIAL_FILL,
    EXEC_REJECT, ORDER_MSG_NEW, ORDER_TYPE_IOC_LIMIT, ORDER_TYPE_MARKET,
};
use crate::sim::exchange::{ExchangeView, SimExchange, StaleOutcome, L1, MAX_PRICE};
use crate::types::{Fill, Qty, Side};

verus! {

/// A client's account: its position and cash, and what its orders did.
#[derive(Debug, Clone, Copy)]
pub struct Client {
    pub id: u64,
    pub position: i64,
    pub cash: i64,
    pub orders_total: u64,
    pub orders_accepted: u64,
    pub orders_filled: u64,
    pub orders_rejected: u64,
    pub fills: u64,
    pub buys: u64,
    pub sells: u64,
    pub buy_qty: u64,
    pub sell_qty: u64,
    pub liquidation_fills: u64,
    pub liquidation_buys: u64,
    pub liquidation_sells: u64,
    pub liquidation_buy_qty: u64,
    pub liquidation_sell_qty: u64,
    pub liquidation_buy_notional: u64,
    pub liquidation_sell_notional: u64,
    pub liquidation_cash: i64,
    pub pre_liq_position: i64,
    pub missed_ioc: u64,
    pub missed_ioc_buys: u64,
    pub missed_ioc_sells: u64,
    pub missed_ioc_buy_gap_sum: u64,
    pub missed_ioc_sell_gap_sum: u64,
    pub stale_fills: u64,
    pub stale_misses: u64,
    pub stale_arrival_lag_ticks_sum: u64,
    pub disconnected: bool,
}

/// The fields of an order message that the gateway reads. `price` is the
/// limit price already rounded to ticks.
#[derive(Debug, Clone, Copy)]
pub struct OrderMsg {
    pub msg_type: u8,
    pub side: u8,
    pub order_type: u8,
    pub client_order_id: u64,
    pub price: u64,
    pub qty: u32,
    pub cancel_order_id: u64,
}

/// The fields of an execution report that the gateway decides.
/// `fill_price` is in ticks.
#[derive(Debug, Clone, Copy)]
pub struct ExecReport {
    pub exec_type: u8,
    pub side: u8,
    pub fill_qty: u32,
    pub order_id: u64,
    pub fill_price: u64,
    pub leaves_qty: u32,
}

/// Whether an order opens or adds to a position, or closes one.
#[derive(Debug, Clone, Copy, PartialEq, Eq, Structural)]
pub enum OrderIntent {
    Normal,
    Closing,
}

impl OrderIntent {
    pub fn as_str(self) -> (s: &'static str)
        ensures
            s@ == (match self {
                OrderIntent::Normal => "normal"@,
                OrderIntent::Closing => "closing"@,
            }),
    {
        match self {
            OrderIntent::Normal => "normal",
            OrderIntent::Closing => "closing",
        }
    }
}

/// How a trade is counted in the fill log.
#[derive(Debug, Clone, Copy, PartialEq, Eq, Structural)]
pub enum TradeClass {
    Close,
    Stale,
    NoStale,
}

impl TradeClass {
    pub fn as_str(self) -> (s: &'static str)
        ensures
            s@ == (match self {
                TradeClass::Close => "close"@,
                TradeClass::Stale => "stale"@,
                TradeClass::NoStale => "no_stale"@,
            }),
    {
        match self {
            TradeClass::Close => "close",
            TradeClass::Stale => "stale",
            TradeClass::NoStale => "no_stale",
        }
    }
}

/// A closing order is a close whatever its stale status; otherwise a trade
/// is stale exactly when the order went for the stale quote.
pub open spec fn spec_trade_class(stale_outcome: Option<StaleOutcome>, order_intent: OrderIntent) -> TradeClass {
    match (stale_outcome, order_intent) {
        (_, OrderIntent::Closing) => TradeClass::Close,
        (Some(_), OrderIntent::Normal) => TradeClass::Stale,
        (None, OrderIntent::Normal) => TradeClass::NoStale,
    }
}

pub fn trade_class(stale_outcome: Option<StaleOutcome>, order_intent: OrderIntent) -> (c: TradeClass)
    ensures
        c == spec_trade_class(stale_outcome, order_intent),
{
    match (stale_outcome, order_intent) {
        (_, OrderIntent::Closing) => TradeClass::Close,
        (Some(_), OrderIntent::Normal) => TradeClass::Stale,
        (None, OrderIntent::Normal) => TradeClass::NoStale,
    }
}

/// An order closes an existing position when it goes against it for no
/// more than its size. The quantity is read as a signed number.
pub open spec fn spec_classify_order_intent(position: i64, side: Side, qty: u64) -> OrderIntent {
    let q = qty as i64;
    let closes = match side {
        Side::Buy => position < 0 && q <= -position,
        Side::Sell => position > 0 && q <= position,
    };
    if closes {
        OrderIntent::Closing
    } else {
        OrderIntent::Normal
    }
}

pub fn classify_order_intent(position: i64, side: Side, qty: Qty) -> (i: OrderIntent)
    requires
        side is Buy ==> position != i64::MIN,
    ensures
        i == spec_classify_order_intent(position, side, qty),
{
    let qty = qty as i64;
    let closes_existing_position = match side {
        Side::Buy => position < 0 && qty <= -position,
        Side::Sell => position > 0 && qty <= position,
    };
    if closes_existing_position {
        OrderIntent::Closing
    } else {
        OrderIntent::Normal
    }
}

/// The kind of a logged fill, from the stale outcome and the intent.
pub open spec fn spec_fill_log_kind(stale_outcome: Option<StaleOutcome>, order_intent: OrderIntent) -> Seq<char> {
    match (stale_outcome, order_intent) {
        (Some(outcome), OrderIntent::Closing) => if outcome.filled {
            "stale_closing_fill"@
        } else {
            "stale_closing_attempt_other_fill"@
        },
        (None, OrderIntent::Closing) => "closing_fill"@,
        (Some(outcome), OrderIntent::Normal) => if outcome.filled {
            "stale_fill"@
        } else {
            "stale_attempt_other_fill"@
        },
        (None, OrderIntent::Normal) => "non_stale_fill"@,
    }
}

pub fn fill_log_kind(stale_outcome: Option<StaleOutcome>, order_intent: OrderIntent) -> (s: &'static str)
    ensures
        s@ == spec_fill_log_kind(stale_outcome, order_intent),
{
    match (stale_outcome, order_intent) {
        (Some(outcome), OrderIntent::Closing) => {
            if outcome.filled {
                "stale_closing_fill"
            } else {
                "stale_closing_attempt_other_fill"
            }
        },
        (None, OrderIntent::Closing) => "closing_fill",
        (Some(outcome), OrderIntent::Normal) => {
            if outcome.filled {
                "stale_fill"
            } else {
                "stale_attempt_other_fill"
            }
        },
        (None, OrderIntent::Normal) => "non_stale_fill",
    }
}

/// Price times quantity, both read as signed numbers.
pub open spec fn signed_notional(price: u64, qty: u64) -> int {
    (price as i64) * (qty as i64)
}

pub open spec fn in_i64(x: int) -> bool {
    i64::MIN <= x <= i64::MAX
}

impl Client {
    /// A new account with nothing traded.
    pub open spec fn fresh(id: u64) -> Client {
        Client {
            id,
            position: 0,
            cash: 0,
            orders_total: 0,
            orders_accepted: 0,
            orders_filled: 0,
            orders_rejected: 0,
            fills: 0,
            buys: 0,
            sells: 0,
            buy_qty: 0,
            sell_qty: 0,
            liquidation_fills: 0,
            liquidation_buys: 0,
            liquidation_sells: 0,
            liquidation_buy_qty: 0,
            liquidation_sell_qty: 0,
            liquidation_buy_notional: 0,
            liquidation_sell_notional: 0,
            liquidation_cash: 0,
            pre_liq_position: 0,
            missed_ioc: 0,
            missed_ioc_buys: 0,
            missed_ioc_sells: 0,
            missed_ioc_buy_gap_sum: 0,
            missed_ioc_sell_gap_sum: 0,
            stale_fills: 0,
            stale_misses: 0,
            stale_arrival_lag_ticks_sum: 0,
            disconnected: false,
        }
    }

    /// Whether a trade of `qty` at `price` on `side` keeps position and
    /// cash within `i64`.
    pub open spec fn move_fits(self, side: Side, price: u64, qty: u64) -> bool {
        let q = qty as i64;
        let n = signed_notional(price, qty);
        &&& in_i64(n)
        &&& match side {
            Side::Buy => in_i64(self.position + q) && in_i64(self.cash - n),
            Side::Sell => in_i64(self.position - q) && in_i64(self.cash + n),
        }
    }

    /// The account after a trade: a buy adds to the position and pays the
    /// notional, a sell takes from the position and receives it.
    pub open spec fn moved(self, side: Side, price: u64, qty: u64) -> Client {
        let q = qty as i64;
        let n = signed_notional(price, qty);
        match side {
            Side::Buy => Client {
                position: (self.position + q) as i64,
                cash: (self.cash - n) as i64,
                ..self
            },
            Side::Sell => Client {
                position: (self.position - q) as i64,
                cash: (self.cash + n) as i64,
                ..self
            },
        }
    }

    /// Whether a fill of `qty` at `price` on `side` can be counted.
    pub open spec fn fill_fits(self, side: Side, price: u64, qty: u64) -> bool {
        &&& self.move_fits(side, price, qty)
        &&& self.fills < u64::MAX
        &&& match side {
            Side::Buy => self.buys < u64::MAX && self.buy_qty + qty <= u64::MAX,
            Side::Sell => self.sells < u64::MAX && self.sell_qty + qty <= u64::MAX,
        }
    }

    /// The account after one of its orders is filled.
    pub open spec fn filled(self, side: Side, price: u64, qty: u64) -> Client {
        let m = self.moved(side, price, qty);
        match side {
            Side::Buy => Client {
                buys: (m.buys + 1) as u64,
                buy_qty: (m.buy_qty + qty) as u64,
                fills: (m.fills + 1) as u64,
                ..m
            },
            Side::Sell => Client {
                sells: (m.sells + 1) as u64,
                sell_qty: (m.sell_qty + qty) as u64,
                fills: (m.fills + 1) as u64,
                ..m
            },
        }
    }

    /// Whether a liquidation fill of `qty` at `price` on `side` can be
    /// counted.
    pub open spec fn liquidation_fill_fits(self, side: Side, price: u64, qty: u64) -> bool {
        let m = self.moved(side, price, qty);
        &&& self.move_fits(side, price, qty)
        &&& in_i64(m.cash - self.cash)
        &&& in_i64(self.liquidation_cash + (m.cash - self.cash))
        &&& self.liquidation_fills < u64::MAX
        &&& price * qty <= u64::MAX
        &&& match side {
            Side::Buy => self.liquidation_buys < u64::MAX && self.liquidation_buy_qty + qty
                <= u64::MAX && self.liquidation_buy_notional + price * qty <= u64::MAX,
            Side::Sell => self.liquidation_sells < u64::MAX && self.liquidation_sell_qty + qty
                <= u64::MAX && self.liquidation_sell_notional + price * qty <= u64::MAX,
        }
    }

    /// The account after a fill that closes out its position.
    pub open spec fn liquidated(self, side: Side, price: u64, qty: u64) -> Client {
        let m = self.moved(side, price, qty);
        let l = Client {
            liquidation_cash: (self.liquidation_cash + (m.cash - self.cash)) as i64,
            liquidation_fills: (self.liquidation_fills + 1) as u64,
            ..m
        };
        match side {
            Side::Buy => Client {
                liquidation_buys: (l.liquidation_buys + 1) as u64,
                liquidation_buy_qty: (l.liquidation_buy_qty + qty) as u64,
                liquidation_buy_notional: (l.liquidation_buy_notional + price * qty) as u64,
                ..l
            },
            Side::Sell => Client {
                liquidation_sells: (l.liquidation_sells + 1) as u64,
                liquidation_sell_qty: (l.liquidation_sell_qty + qty) as u64,
                liquidation_sell_notional: (l.liquidation_sell_notional + price * qty) as u64,
                ..l
            },
        }
    }

    /// The account after an attempt on a stale quote.
    pub open spec fn with_stale_outcome(self, outcome: StaleOutcome) -> Client {
        let c = if outcome.filled {
            Client { stale_fills: (self.stale_fills + 1) as u64, ..self }
        } else {
            Client { stale_misses: (self.stale_misses + 1) as u64, ..self }
        };
        Client {
            stale_arrival_lag_ticks_sum: (c.stale_arrival_lag_ticks_sum + outcome.arrival_lag_ticks) as u64,
            ..c
        }
    }

    pub fn new(id: u64) -> (c: Self)
        ensures
            c == Client::fresh(id),
    {
        Client {
            id,
            position: 0,
            cash: 0,
            orders_total: 0,
            orders_accepted: 0,
            orders_filled: 0,
            orders_rejected: 0,
            fills: 0,
            buys: 0,
            sells: 0,
            buy_qty: 0,
            sell_qty: 0,
            liquidation_fills: 0,
            liquidation_buys: 0,
            liquidation_sells: 0,
            liquidation_buy_qty: 0,
            liquidation_sell_qty: 0,
            liquidation_buy_notional: 0,
            liquidation_sell_notional: 0,
            liquidation_cash: 0,
            pre_liq_position: 0,
            missed_ioc: 0,
            missed_ioc_buys: 0,
            missed_ioc_sells: 0,
            missed_ioc_buy_gap_sum: 0,
            missed_ioc_sell_gap_sum: 0,
            stale_fills: 0,
            stale_misses: 0,
            stale_arrival_lag_ticks_sum: 0,
            disconnected: false,
        }
    }

    pub fn apply_position_delta(&mut self, side: Side, price: u64, qty: Qty)
        requires
            old(self).move_fits(side, price, qty),
        ensures
            *final(self) == old(self).moved(side, price, qty),
    {
        let qty_i64 = qty as i64;
        let notional = price as i64 * qty_i64;
        match side {
            Side::Buy => {
                self.position = self.position + qty_i64;
                self.cash = self.cash - notional;
            },
            Side::Sell => {
                self.position = self.position - qty_i64;
                self.cash = self.cash + notional;
            },
        }
    }

    pub fn apply_fill(&mut self, side: Side, price: u64, qty: Qty)
        requires
            old(self).fill_fits(side, price, qty),
        ensures
            *final(self) == old(self).filled(side, price, qty),
    {
        self.apply_position_delta(side, price, qty);
        match side {
            Side::Buy => {
                self.buys = self.buys + 1;
                self.buy_qty = self.buy_qty + qty;
            },
            Side::Sell => {
                self.sells = self.sells + 1;
                self.sell_qty = self.sell_qty + qty;
            },
        }
        self.fills = self.fills + 1;
    }

    pub fn apply_liquidation_fill(&mut self, side: Side, price: u64, qty: Qty)
        requires
            old(self).liquidation_fill_fits(side, price, qty),
        ensures
            *final(self) == old(self).liquidated(side, price, qty),
    {
        let old_cash = self.cash;
        self.apply_position_delta(side, price, qty);
        self.liquidation_cash = self.liquidation_cash + (self.cash - old_cash);
        match side {
            Side::Buy => {
                self.liquidation_buys = self.liquidation_buys + 1;
                self.liquidation_buy_qty = self.liquidation_buy_qty + qty;
                self.liquidation_buy_notional = self.liquidation_buy_notional + price * qty;
            },
            Side::Sell => {
                self.liquidation_sells = self.liquidation_sells + 1;
                self.liquidation_sell_qty = self.liquidation_sell_qty + qty;
                self.liquidation_sell_notional = self.liquidation_sell_notional + price * qty;
            },
        }
        self.liquidation_fills = self.liquidation_fills + 1;
    }

    pub fn apply_stale_outcome(&mut self, outcome: StaleOutcome)
        requires
            old(self).stale_fills < u64::MAX,
            old(self).stale_misses < u64::MAX,
            old(self).stale_arrival_lag_ticks_sum + outcome.arrival_lag_ticks <= u64::MAX,
        ensures
            *final(self) == old(self).with_stale_outcome(outcome),
    {
        if outcome.filled {
            self.stale_fills = self.stale_fills + 1;
        } else {
            self.stale_misses = self.stale_misses + 1;
        }
        self.stale_arrival_lag_ticks_sum = self.stale_arrival_lag_ticks_sum + outcome.arrival_lag_ticks;
    }
}


/// What the gateway reports back on one order, with what it needs to log
/// the order's fills.
pub struct NewOrderOutcome {
    pub reports: Vec<ExecReport>,
    pub fills: Vec<Fill>,
    pub stale_outcome: Option<StaleOutcome>,
    pub intent: OrderIntent,
    pub pre_order_position: i64,
}

/// A report on the order as a whole, with nothing filled.
pub open spec fn order_report(msg: OrderMsg, exec_type: u8, leaves: u64) -> ExecReport {
    ExecReport {
        exec_type,
        side: msg.side,
        fill_qty: 0,
        order_id: msg.client_order_id,
        fill_price: 0,
        leaves_qty: leaves as u32,
    }
}

/// The report on fill `i` of an order for `qty` lots: what it filled, and
/// what of the order is left after it.
pub open spec fn fill_report(msg: OrderMsg, qty: u64, fills: Seq<Fill>, i: int) -> ExecReport {
    let done = fills_qty(fills.take(i + 1));
    let leaves: u64 = if qty > done {
        (qty - done) as u64
    } else {
        0
    };
    ExecReport {
        exec_type: if leaves == 0 {
            EXEC_FILL
        } else {
            EXEC_PARTIAL_FILL
        },
        side: msg.side,
        fill_qty: fills[i].qty as u32,
        order_id: msg.client_order_id,
        fill_price: fills[i].price,
        leaves_qty: leaves as u32,
    }
}

/// One report per fill, in order.
pub open spec fn fill_reports(msg: OrderMsg, qty: u64, fills: Seq<Fill>) -> Seq<ExecReport> {
    Seq::new(fills.len(), |i: int| fill_report(msg, qty, fills, i))
}

/// The account after each of `fills` is counted in turn.
pub open spec fn apply_fills_spec(c: Client, side: Side, fills: Seq<Fill>) -> Client
    decreases fills.len(),
{
    if fills.len() == 0 {
        c
    } else {
        apply_fills_spec(c, side, fills.drop_last()).filled(side, fills.last().price, fills.last().qty)
    }
}

/// How far an unfilled order's price was from the touch it had to reach.
pub open spec fn miss_gap(l1: L1, side: Side, price: u64) -> u64 {
    match side {
        Side::Buy => if l1.ask > price {
            (l1.ask - price) as u64
        } else {
            0
        },
        Side::Sell => if price > l1.bid {
            (price - l1.bid) as u64
        } else {
            0
        },
    }
}

/// The exchange after an accepted order, its fills and its stale outcome:
/// an immediate-or-cancel limit order or a market order.
pub open spec fn accepted_order(ex: ExchangeView, msg: OrderMsg) -> (ExchangeView, Seq<Fill>, Option<StaleOutcome>) {
    let side = spec_wire_to_side(msg.side);
    if msg.order_type == ORDER_TYPE_IOC_LIMIT {
        ex.ioc(side, msg.price, msg.qty as u64)
    } else {
        let m = ex.market(side, msg.qty as u64);
        (m.0, m.1, None)
    }
}

pub open spec fn is_accepted(msg: OrderMsg) -> bool {
    msg.order_type == ORDER_TYPE_IOC_LIMIT || msg.order_type == ORDER_TYPE_MARKET
}

impl Client {
    /// The account after an immediate-or-cancel order that filled nothing.
    pub open spec fn missed(self, side: Side, gap: u64) -> Client {
        let c = match side {
            Side::Buy => Client {
                missed_ioc_buys: (self.missed_ioc_buys + 1) as u64,
                missed_ioc_buy_gap_sum: (self.missed_ioc_buy_gap_sum + gap) as u64,
                ..self
            },
            Side::Sell => Client {
                missed_ioc_sells: (self.missed_ioc_sells + 1) as u64,
                missed_ioc_sell_gap_sum: (self.missed_ioc_sell_gap_sum + gap) as u64,
                ..self
            },
        };
        Client { missed_ioc: (c.missed_ioc + 1) as u64, ..c }
    }

    /// Whether fills for at most `t` lots in all, at prices up to
    /// `MAX_PRICE`, can be counted on `side`: the fill counters can grow
    /// by `t`, and position and cash can move by `t` lots and their
    /// notional.
    pub open spec fn fills_fit(self, side: Side, t: int) -> bool {
        &&& self.fills + t <= u64::MAX
        &&& match side {
            Side::Buy => {
                &&& self.buys + t <= u64::MAX
                &&& self.buy_qty + t <= u64::MAX
                &&& self.position + t <= i64::MAX
                &&& self.cash - MAX_PRICE * t >= i64::MIN
            },
            Side::Sell => {
                &&& self.sells + t <= u64::MAX
                &&& self.sell_qty + t <= u64::MAX
                &&& self.position - t >= i64::MIN
                &&& self.cash + MAX_PRICE * t <= i64::MAX
            },
        }
    }

    /// The account can take `msg` on an exchange at tick `tick` without a
    /// counter passing its type's limit, whatever the order fills: every
    /// counter the order can move has room for the most it can add.
    pub open spec fn room_for(self, msg: OrderMsg, tick: u64) -> bool {
        let side = spec_wire_to_side(msg.side);
        let is_ioc = msg.order_type == ORDER_TYPE_IOC_LIMIT;
        &&& self.orders_total < u64::MAX
        &&& (side is Buy ==> self.position != i64::MIN)
        &&& if is_accepted(msg) {
            &&& self.orders_accepted < u64::MAX
            &&& self.orders_filled < u64::MAX
            &&& self.fills_fit(side, msg.qty as int)
            &&& is_ioc ==> {
                &&& self.stale_fills < u64::MAX
                &&& self.stale_misses < u64::MAX
                &&& self.stale_arrival_lag_ticks_sum + tick <= u64::MAX
                &&& self.missed_ioc < u64::MAX
                &&& match side {
                    Side::Buy => self.missed_ioc_buys < u64::MAX && self.missed_ioc_buy_gap_sum
                        + MAX_PRICE <= u64::MAX,
                    Side::Sell => self.missed_ioc_sells < u64::MAX && self.missed_ioc_sell_gap_sum
                        + msg.price <= u64::MAX,
                }
            }
        } else {
            self.orders_rejected < u64::MAX
        }
    }

    /// Whether `room_for` holds.
    pub fn has_room_for(&self, msg: &OrderMsg, tick: u64) -> (b: bool)
        ensures
            b == self.room_for(*msg, tick),
    {
        if self.orders_total == u64::MAX {
            return false;
        }
        if matches!(wire_to_side(msg.side), Side::Buy) && self.position == i64::MIN {
            return false;
        }
        let is_ioc = msg.order_type == ORDER_TYPE_IOC_LIMIT;
        if !(is_ioc || msg.order_type == ORDER_TYPE_MARKET) {
            return self.orders_rejected < u64::MAX;
        }
        let q = msg.qty as u64;
        let n: u64 = MAX_PRICE * q;
        let side = wire_to_side(msg.side);
        let fills_ok = self.fills <= u64::MAX - q && match side {
            Side::Buy => self.buys <= u64::MAX - q && self.buy_qty <= u64::MAX - q
                && self.position <= i64::MAX - (q as i64) && (self.cash as i128) - (n as i128)
                >= i64::MIN as i128,
            Side::Sell => self.sells <= u64::MAX - q && self.sell_qty <= u64::MAX - q
                && self.position >= i64::MIN + (q as i64) && (self.cash as i128) + (n as i128)
                <= i64::MAX as i128,
        };
        let ioc_ok = !is_ioc || (self.stale_fills < u64::MAX && self.stale_misses < u64::MAX
            && self.stale_arrival_lag_ticks_sum <= u64::MAX - tick && self.missed_ioc < u64::MAX
            && match side {
            Side::Buy => self.missed_ioc_buys < u64::MAX && self.missed_ioc_buy_gap_sum
                <= u64::MAX - MAX_PRICE,
            Side::Sell => self.missed_ioc_sells < u64::MAX && self.missed_ioc_sell_gap_sum
                <= u64::MAX - msg.price,
        });
        self.orders_accepted < u64::MAX && self.orders_filled < u64::MAX && fills_ok && ioc_ok
    }
}

/// What handling a new order does: the exchange afterwards, the account
/// afterwards and the reports, in the order they are sent. An order of
/// another type than immediate-or-cancel limit or market is rejected.
/// Otherwise it is acknowledged, each fill is reported and counted, and an
/// immediate-or-cancel order that was not filled in full ends with a
/// cancel acknowledgement for what was left.
pub open spec fn spec_process_new_order(ex: ExchangeView, c: Client, msg: OrderMsg) -> (ExchangeView, Client, Seq<ExecReport>) {
    let side = spec_wire_to_side(msg.side);
    let qty = msg.qty as u64;
    let c1 = Client { orders_total: (c.orders_total + 1) as u64, ..c };
    let is_ioc = msg.order_type == ORDER_TYPE_IOC_LIMIT;
    if is_accepted(msg) {
        let (ex2, fills, stale) = accepted_order(ex, msg);
        let c2 = Client { orders_accepted: (c1.orders_accepted + 1) as u64, ..c1 };
        let c3 = match stale {
            Some(o) => c2.with_stale_outcome(o),
            None => c2,
        };
        let c4 = if fills.len() == 0 && is_ioc {
            c3.missed(side, miss_gap(ex2.snapshot(), side, msg.price))
        } else if fills.len() > 0 {
            Client { orders_filled: (c3.orders_filled + 1) as u64, ..c3 }
        } else {
            c3
        };
        let total = fills_qty(fills);
        let tail = if is_ioc && qty > total {
            seq![order_report(msg, EXEC_CANCEL_ACK, (qty - total) as u64)]
        } else {
            Seq::empty()
        };
        (
            ex2,
            apply_fills_spec(c4, side, fills),
            seq![order_report(msg, EXEC_NEW_ACK, qty)] + fill_reports(msg, qty, fills) + tail,
        )
    } else {
        (
            ex,
            Client { orders_rejected: (c1.orders_rejected + 1) as u64, ..c1 },
            seq![order_report(msg, EXEC_REJECT, qty)],
        )
    }
}

/// Counting fills leaves the stale-quote counters of an account alone.
proof fn lemma_apply_fills_keeps_stale(c: Client, side: Side, fs: Seq<Fill>)
    ensures
        apply_fills_spec(c, side, fs).stale_fills == c.stale_fills,
        apply_fills_spec(c, side, fs).stale_misses == c.stale_misses,
        apply_fills_spec(c, side, fs).stale_arrival_lag_ticks_sum == c.stale_arrival_lag_ticks_sum,
    decreases fs.len(),
{
    if fs.len() > 0 {
        lemma_apply_fills_keeps_stale(c, side, fs.drop_last());
    }
}

/// Every attempt of an order on a stale quote is counted in the client's
/// account, and nothing else is: after a new order the account has one
/// more stale fill when the order's outcome on the stale quote is a fill,
/// one more stale miss when it is a miss, and its arrival lags grow by the
/// outcome's lag; with no outcome (a market order, an order that did not
/// reach the quote, a rejected order) they are as they were.
pub proof fn law_stale_outcome_counted(ex: ExchangeView, c: Client, msg: OrderMsg)
    requires
        c.room_for(msg, ex.tick),
    ensures
        ({
            let c2 = spec_process_new_order(ex, c, msg).1;
            let st = if is_accepted(msg) {
                accepted_order(ex, msg).2
            } else {
                None
            };
            match st {
                Some(o) => {
                    &&& c2.stale_fills == c.stale_fills + (if o.filled {
                        1int
                    } else {
                        0int
                    })
                    &&& c2.stale_misses == c.stale_misses + (if o.filled {
                        0int
                    } else {
                        1int
                    })
                    &&& c2.stale_arrival_lag_ticks_sum == c.stale_arrival_lag_ticks_sum + o.arrival_lag_ticks
                },
                None => {
                    &&& c2.stale_fills == c.stale_fills
                    &&& c2.stale_misses == c.stale_misses
                    &&& c2.stale_arrival_lag_ticks_sum == c.stale_arrival_lag_ticks_sum
                },
            }
        }),
{
    if is_accepted(msg) {
        let side = spec_wire_to_side(msg.side);
        let (ex2, fills, stale) = accepted_order(ex, msg);
        lemma_ioc_lag_bound(ex, msg);
        let c1 = Client { orders_total: (c.orders_total + 1) as u64, ..c };
        let c2 = Client { orders_accepted: (c1.orders_accepted + 1) as u64, ..c1 };
        let c3 = match stale {
            Some(outcome) => c2.with_stale_outcome(outcome),
            None => c2,
        };
        let is_ioc = msg.order_type == ORDER_TYPE_IOC_LIMIT;
        let c4 = if fills.len() == 0 && is_ioc {
            c3.missed(side, miss_gap(ex2.snapshot(), side, msg.price))
        } else if fills.len() > 0 {
            Client { orders_filled: (c3.orders_filled + 1) as u64, ..c3 }
        } else {
            c3
        };
        lemma_apply_fills_keeps_stale(c4, side, fills);
    }
}

/// An outcome on the stale quote comes only from an immediate-or-cancel
/// order, and its arrival lag is at most the exchange's tick.
proof fn lemma_ioc_lag_bound(ex: ExchangeView, msg: OrderMsg)
    ensures
        is_accepted(msg) && accepted_order(ex, msg).2 is Some ==> msg.order_type == ORDER_TYPE_IOC_LIMIT
            && accepted_order(ex, msg).2->0.arrival_lag_ticks <= ex.tick,
{
}

/// A prefix of some fills holds at most their total quantity.
proof fn lemma_fills_qty_prefix(fs: Seq<Fill>, k: int)
    requires
        0 <= k <= fs.len(),
    ensures
        fills_qty(fs.take(k)) <= fills_qty(fs),
    decreases fs.len(),
{
    if k < fs.len() {
        lemma_fills_qty_push(fs);
        lemma_fills_qty_prefix(fs.drop_last(), k);
        assert(fs.drop_last().take(k) =~= fs.take(k));
    } else {
        assert(fs.take(k) =~= fs);
    }
}

/// Counting some fills, for at most `t` lots in all, moves position and
/// cash on the fills' side by at most their quantity and notional, adds one
/// fill per fill, and touches nothing else.
proof fn lemma_apply_fills_bounds(c: Client, side: Side, fs: Seq<Fill>, t: int)
    requires
        c.fills_fit(side, t),
        fills_qty(fs) <= t <= u32::MAX,
        forall|j: int| 0 <= j < fs.len() ==> #[trigger] fs[j].price <= MAX_PRICE && fs[j].qty > 0,
    ensures
        ({
            let r = apply_fills_spec(c, side, fs);
            let q = fills_qty(fs);
            &&& match side {
                Side::Buy => {
                    &&& r.position == c.position + q
                    &&& c.cash - MAX_PRICE * q <= r.cash <= c.cash
                    &&& r.buys == c.buys + fs.len()
                    &&& r.buy_qty == c.buy_qty + q
                    &&& r.sells == c.sells
                    &&& r.sell_qty == c.sell_qty
                },
                Side::Sell => {
                    &&& r.position == c.position - q
                    &&& c.cash <= r.cash <= c.cash + MAX_PRICE * q
                    &&& r.sells == c.sells + fs.len()
                    &&& r.sell_qty == c.sell_qty + q
                    &&& r.buys == c.buys
                    &&& r.buy_qty == c.buy_qty
                },
            }
            &&& r.fills == c.fills + fs.len()
            &&& fs.len() <= q
            &&& r == (Client {
                position: r.position,
                cash: r.cash,
                fills: r.fills,
                buys: r.buys,
                sells: r.sells,
                buy_qty: r.buy_qty,
                sell_qty: r.sell_qty,
                ..c
            })
        }),
    decreases fs.len(),
{
    if fs.len() > 0 {
        let d = fs.drop_last();
        let f = fs.last();
        lemma_fills_qty_push(fs);
        assert forall|j: int| 0 <= j < d.len() implies #[trigger] d[j].price <= MAX_PRICE && d[j].qty > 0 by {
            assert(d[j] == fs[j]);
        }
        lemma_apply_fills_bounds(c, side, d, t);
        let rd = apply_fills_spec(c, side, d);
        let q = fills_qty(fs);
        assert(f.price <= MAX_PRICE && f.qty > 0);
        assert(f.price * f.qty <= MAX_PRICE * f.qty) by (nonlinear_arith)
            requires
                f.price <= MAX_PRICE,
        ;
        assert(MAX_PRICE * fills_qty(d) + MAX_PRICE * f.qty == MAX_PRICE * q);
        assert(MAX_PRICE * q <= MAX_PRICE * t) by (nonlinear_arith)
            requires
                q <= t,
        ;
        assert(0 <= f.price * f.qty) by (nonlinear_arith);
        assert(signed_notional(f.price, f.qty) == f.price * f.qty);
        assert(f.qty <= q);
        assert(in_i64(signed_notional(f.price, f.qty)));
        assert(rd.move_fits(side, f.price, f.qty));
        assert(rd.fill_fits(side, f.price, f.qty));
    }
}

/// Counts each fill of an order for `qty` lots in the account and appends
/// its report. Returns the quantity filled.
fn report_fills(client: &mut Client, side: Side, msg: &OrderMsg, qty: u64, fills: &Vec<Fill>, reports: &mut Vec<ExecReport>) -> (filled: u64)
    requires
        old(client).fills_fit(side, qty as int),
        fills_qty(fills@) <= qty,
        qty <= u32::MAX,
        forall|j: int| 0 <= j < fills@.len() ==> #[trigger] fills@[j].price <= MAX_PRICE && fills@[j].qty > 0,
    ensures
        *final(client) == apply_fills_spec(*old(client), side, fills@),
        final(reports)@ == old(reports)@ + fill_reports(*msg, qty, fills@),
        filled == fills_qty(fills@),
{
    let ghost fs = fills@;
    let ghost c4 = *client;
    let ghost head = reports@;
    let mut filled_so_far: Qty = 0;
    let mut i: usize = 0;
    while i < fills.len()
        invariant
            fills@ == fs,
            0 <= i <= fs.len(),
            filled_so_far == fills_qty(fs.take(i as int)),
            fills_qty(fs) <= qty,
            qty <= u32::MAX,
            forall|j: int| 0 <= j < fs.len() ==> #[trigger] fs[j].price <= MAX_PRICE && fs[j].qty > 0,
            c4.fills_fit(side, qty as int),
            *client == apply_fills_spec(c4, side, fs.take(i as int)),
            reports@ == head + fill_reports(*msg, qty, fs).take(i as int),
        decreases fs.len() - i,
    {
        let fill = fills[i];
        proof {
            let ti = fs.take(i as int);
            let tn = fs.take(i + 1);
            lemma_fills_qty_push(tn);
            assert(tn.drop_last() =~= ti);
            lemma_fills_qty_prefix(fs, i + 1);
            assert forall|j: int| 0 <= j < tn.len() implies #[trigger] tn[j].price <= MAX_PRICE && tn[j].qty > 0 by {
                assert(tn[j] == fs[j]);
            }
            lemma_apply_fills_bounds(c4, side, tn, qty as int);
            assert(apply_fills_spec(c4, side, tn) == client.filled(side, fill.price, fill.qty));
            lemma_apply_fills_bounds(c4, side, ti, qty as int);
            assert(fill.price * fill.qty <= MAX_PRICE * fill.qty) by (nonlinear_arith)
                requires
                    fill.price <= MAX_PRICE,
            ;
            assert(signed_notional(fill.price, fill.qty) == fill.price * fill.qty);
        }
        filled_so_far = filled_so_far + fill.qty;
        client.apply_fill(side, fill.price, fill.qty);
        let leaves = qty.saturating_sub(filled_so_far);
        let exec_type = if leaves == 0 {
            EXEC_FILL
        } else {
            EXEC_PARTIAL_FILL
        };
        reports.push(
            ExecReport {
                exec_type,
                side: msg.side,
                fill_qty: fill.qty as u32,
                order_id: msg.client_order_id,
                fill_price: fill.price,
                leaves_qty: leaves as u32,
            },
        );
        proof {
            assert(fill_reports(*msg, qty, fs)[i as int] == fill_report(*msg, qty, fs, i as int));
            assert(reports@ =~= head + fill_reports(*msg, qty, fs).take(i + 1));
        }
        i = i + 1;
    }
    proof {
        assert(fs.take(fs.len() as int) =~= fs);
        assert(fill_reports(*msg, qty, fs).take(fs.len() as int) =~= fill_reports(*msg, qty, fs));
    }
    filled_so_far
}

/// Handles a new order from a client: routes it to the exchange, counts
/// what happened in the client's account, and returns the execution
/// reports to send back.
#[verifier::spinoff_prover]
#[verifier::rlimit(60)]
pub fn process_new_order(exchange: &mut SimExchange, client: &mut Client, msg: &OrderMsg) -> (r: NewOrderOutcome)
    requires
        old(exchange).wf(),
        old(exchange)@.next_id < u64::MAX,
        old(client).room_for(*msg, old(exchange)@.tick),
    ensures
        final(exchange).wf(),
        (final(exchange)@, *final(client), r.reports@) == spec_process_new_order(old(exchange)@, *old(client), *msg),
        is_accepted(*msg) ==> r.fills@ == accepted_order(old(exchange)@, *msg).1 && r.stale_outcome
            == accepted_order(old(exchange)@, *msg).2,
        !is_accepted(*msg) ==> r.fills@.len() == 0 && r.stale_outcome is None,
        r.intent == spec_classify_order_intent(old(client).position, spec_wire_to_side(msg.side), msg.qty as u64),
        r.pre_order_position == old(client).position,
{
    let ghost ex0 = exchange@;
    let side = wire_to_side(msg.side);
    let price = msg.price;
    let qty = msg.qty as Qty;
    let pre_order_position = client.position;
    let order_intent = classify_order_intent(pre_order_position, side, qty);
    client.orders_total = client.orders_total + 1;
    let is_ioc = msg.order_type == ORDER_TYPE_IOC_LIMIT;
    let mut reports: Vec<ExecReport> = Vec::new();
    if !(is_ioc || msg.order_type == ORDER_TYPE_MARKET) {
        client.orders_rejected = client.orders_rejected + 1;
        reports.push(
            ExecReport {
                exec_type: EXEC_REJECT,
                side: msg.side,
                fill_qty: 0,
                order_id: msg.client_order_id,
                fill_price: 0,
                leaves_qty: qty as u32,
            },
        );
        return NewOrderOutcome {
            reports,
            fills: Vec::new(),
            stale_outcome: None,
            intent: order_intent,
            pre_order_position,
        };
    }
    let (fills, stale_outcome) = if is_ioc {
        let result = exchange.submit_ioc_limit_at(side, price, qty);
        (result.fills, result.stale_outcome)
    } else {
        (exchange.submit_market(side, qty), None)
    };
    let ghost fs = fills@;
    assert(fs == accepted_order(ex0, *msg).1 && stale_outcome == accepted_order(ex0, *msg).2);
    client.orders_accepted = client.orders_accepted + 1;
    match stale_outcome {
        Some(outcome) => {
            client.apply_stale_outcome(outcome);
        },
        None => {},
    }
    if fills.len() == 0 && is_ioc {
        let l1 = exchange.debug_l1();
        let gap = match side {
            Side::Buy => l1.ask.saturating_sub(price),
            Side::Sell => price.saturating_sub(l1.bid),
        };
        match side {
            Side::Buy => {
                client.missed_ioc_buys = client.missed_ioc_buys + 1;
                client.missed_ioc_buy_gap_sum = client.missed_ioc_buy_gap_sum + gap;
            },
            Side::Sell => {
                client.missed_ioc_sells = client.missed_ioc_sells + 1;
                client.missed_ioc_sell_gap_sum = client.missed_ioc_sell_gap_sum + gap;
            },
        }
        client.missed_ioc = client.missed_ioc + 1;
    } else if fills.len() > 0 {
        client.orders_filled = client.orders_filled + 1;
    }
    reports.push(
        ExecReport {
            exec_type: EXEC_NEW_ACK,
            side: msg.side,
            fill_qty: 0,
            order_id: msg.client_order_id,
            fill_price: 0,
            leaves_qty: qty as u32,
        },
    );
    let filled_so_far = report_fills(client, side, msg, qty, &fills, &mut reports);
    if is_ioc {
        let leaves = qty.saturating_sub(filled_so_far);
        if leaves > 0 {
            reports.push(
                ExecReport {
                    exec_type: EXEC_CANCEL_ACK,
                    side: msg.side,
                    fill_qty: 0,
                    order_id: msg.client_order_id,
                    fill_price: 0,
                    leaves_qty: leaves as u32,
                },
            );
        }
    }
    NewOrderOutcome { reports, fills, stale_outcome, intent: order_intent, pre_order_position }
}


/// Handles one order message from a client that is still connected: a new
/// order is processed; any other message is left unanswered (`None`).
pub fn process_order_msg(exchange: &mut SimExchange, client: &mut Client, msg: &OrderMsg) -> (r: Option<NewOrderOutcome>)
    requires
        old(exchange).wf(),
        old(exchange)@.next_id < u64::MAX,
        !old(client).disconnected && msg.msg_type == ORDER_MSG_NEW ==> old(client).room_for(
            *msg,
            old(exchange)@.tick,
        ),
    ensures
        final(exchange).wf(),
        r is Some <==> !old(client).disconnected && msg.msg_type == ORDER_MSG_NEW,
        r is Some ==> (final(exchange)@, *final(client), r->0.reports@) == spec_process_new_order(
            old(exchange)@,
            *old(client),
            *msg,
        ),
        r is None ==> final(exchange)@ == old(exchange)@ && *final(client) == *old(client),
{
    if client.disconnected {
        return None;
    }
    if msg.msg_type == ORDER_MSG_NEW {
        Some(process_new_order(exchange, client, msg))
    } else {
        None
    }
}

/// What closing out a position left for the account's profit and loss:
/// the position closed, the sum of the best bid and ask before (0 when
/// the book had no valid quote), and the cash the closing trades brought.
#[derive(Debug, Clone, Copy)]
pub struct Liquidation {
    pub position: i64,
    pub mark_sum: u64,
    pub cash_delta: i64,
}

/// The account after each of `fills` is counted as a liquidation fill.
pub open spec fn apply_liquidation_spec(c: Client, side: Side, fills: Seq<Fill>) -> Client
    decreases fills.len(),
{
    if fills.len() == 0 {
        c
    } else {
        apply_liquidation_spec(c, side, fills.drop_last()).liquidated(
            side,
            fills.last().price,
            fills.last().qty,
        )
    }
}

impl Client {
    /// The size of the position.
    pub open spec fn exposure(self) -> int {
        if self.position >= 0 {
            self.position as int
        } else {
            -self.position
        }
    }

    /// The account can close out its whole position at any price the
    /// exchange quotes without a counter passing its type's limit.
    pub open spec fn liquidation_room(self) -> bool {
        let p = self.exposure();
        &&& self.position != i64::MIN
        &&& MAX_PRICE * p + (if self.cash >= 0 { self.cash as int } else { -self.cash }) <= i64::MAX
        &&& MAX_PRICE * p + (if self.liquidation_cash >= 0 {
            self.liquidation_cash as int
        } else {
            -self.liquidation_cash
        }) <= i64::MAX
        &&& self.liquidation_fills + p <= u64::MAX
        &&& self.liquidation_buys + p <= u64::MAX
        &&& self.liquidation_sells + p <= u64::MAX
        &&& self.liquidation_buy_qty + p <= u64::MAX
        &&& self.liquidation_sell_qty + p <= u64::MAX
        &&& self.liquidation_buy_notional + MAX_PRICE * p <= u64::MAX
        &&& self.liquidation_sell_notional + MAX_PRICE * p <= u64::MAX
    }
}

impl Client {
    /// Whether `liquidation_room` holds.
    pub fn has_liquidation_room(&self) -> (b: bool)
        ensures
            b == self.liquidation_room(),
    {
        if self.position == i64::MIN {
            return false;
        }
        let p: u64 = if self.position >= 0 {
            self.position as u64
        } else {
            (-self.position) as u64
        };
        let cash: u64 = if self.cash >= 0 {
            self.cash as u64
        } else if self.cash == i64::MIN {
            0x8000_0000_0000_0000
        } else {
            (-self.cash) as u64
        };
        let lcash: u64 = if self.liquidation_cash >= 0 {
            self.liquidation_cash as u64
        } else if self.liquidation_cash == i64::MIN {
            0x8000_0000_0000_0000
        } else {
            (-self.liquidation_cash) as u64
        };
        let max = i64::MAX as u64;
        if p > max / MAX_PRICE {
            return false;
        }
        let np = MAX_PRICE * p;
        np <= max && cash <= max - np && lcash <= max - np && self.liquidation_fills <= u64::MAX - p
            && self.liquidation_buys <= u64::MAX - p && self.liquidation_sells <= u64::MAX - p
            && self.liquidation_buy_qty <= u64::MAX - p && self.liquidation_sell_qty <= u64::MAX - p
            && self.liquidation_buy_notional <= u64::MAX - np && self.liquidation_sell_notional
            <= u64::MAX - np
    }
}

/// Closing out a client's position with a market order for its size.
pub open spec fn spec_liquidate_client(ex: ExchangeView, c: Client) -> (ExchangeView, Client, Liquidation) {
    let c1 = Client { pre_liq_position: c.position, ..c };
    let l1 = ex.snapshot();
    let mark_sum: u64 = if l1.spec_valid() {
        (l1.bid + l1.ask) as u64
    } else {
        0
    };
    if c.position == 0 {
        (ex, c1, Liquidation { position: 0, mark_sum, cash_delta: 0 })
    } else {
        let side = closing_side(c.position);
        let qty = c.exposure() as u64;
        let m = ex.market(side, qty);
        let c2 = apply_liquidation_spec(c1, side, m.1);
        (
            m.0,
            c2,
            Liquidation {
                position: c.position,
                mark_sum,
                cash_delta: (c2.liquidation_cash - c.liquidation_cash) as i64,
            },
        )
    }
}

/// Counting liquidation fills moves position, cash and liquidation cash by
/// at most their quantity and notional, and touches no other account of
/// the client than the liquidation counters.
proof fn lemma_apply_liquidation_bounds(c: Client, side: Side, fs: Seq<Fill>, p: int)
    requires
        c.liquidation_room(),
        p == c.exposure(),
        fills_qty(fs) <= p,
        forall|j: int| 0 <= j < fs.len() ==> #[trigger] fs[j].price <= MAX_PRICE && fs[j].qty > 0,
    ensures
        ({
            let r = apply_liquidation_spec(c, side, fs);
            let t = fills_qty(fs);
            &&& c.position - t <= r.position <= c.position + t
            &&& c.cash - MAX_PRICE * t <= r.cash <= c.cash + MAX_PRICE * t
            &&& c.liquidation_cash - MAX_PRICE * t <= r.liquidation_cash <= c.liquidation_cash + MAX_PRICE * t
            &&& r.liquidation_fills == c.liquidation_fills + fs.len()
            &&& r.liquidation_buys <= c.liquidation_buys + fs.len()
            &&& r.liquidation_sells <= c.liquidation_sells + fs.len()
            &&& r.liquidation_buy_qty <= c.liquidation_buy_qty + t
            &&& r.liquidation_sell_qty <= c.liquidation_sell_qty + t
            &&& r.liquidation_buy_notional <= c.liquidation_buy_notional + MAX_PRICE * t
            &&& r.liquidation_sell_notional <= c.liquidation_sell_notional + MAX_PRICE * t
            &&& fs.len() <= t
        }),
    decreases fs.len(),
{
    if fs.len() > 0 {
        let d = fs.drop_last();
        let f = fs.last();
        lemma_fills_qty_push(fs);
        assert forall|j: int| 0 <= j < d.len() implies #[trigger] d[j].price <= MAX_PRICE && d[j].qty > 0 by {
            assert(d[j] == fs[j]);
        }
        lemma_apply_liquidation_bounds(c, side, d, p);
        let rd = apply_liquidation_spec(c, side, d);
        let t = fills_qty(fs);
        assert(f.price <= MAX_PRICE && f.qty > 0);
        assert(f.price * f.qty <= MAX_PRICE * f.qty) by (nonlinear_arith)
            requires
                f.price <= MAX_PRICE,
        ;
        assert(MAX_PRICE * fills_qty(d) + MAX_PRICE * f.qty == MAX_PRICE * t);
        assert(MAX_PRICE * t <= MAX_PRICE * p);
        assert(signed_notional(f.price, f.qty) == f.price * f.qty);
        assert(rd.liquidation_fill_fits(side, f.price, f.qty));
    }
}


/// Counting liquidation fills on `side` moves the position by their
/// quantity: up for a buy, down for a sell.
proof fn lemma_liquidation_position(c: Client, side: Side, fs: Seq<Fill>, p: int)
    requires
        c.liquidation_room(),
        p == c.exposure(),
        fills_qty(fs) <= p,
        forall|j: int| 0 <= j < fs.len() ==> #[trigger] fs[j].price <= MAX_PRICE && fs[j].qty > 0,
    ensures
        apply_liquidation_spec(c, side, fs).position == (if side == Side::Buy {
            c.position + fills_qty(fs)
        } else {
            c.position - fills_qty(fs)
        }),
    decreases fs.len(),
{
    if fs.len() > 0 {
        let d = fs.drop_last();
        lemma_fills_qty_push(fs);
        assert forall|j: int| 0 <= j < d.len() implies #[trigger] d[j].price <= MAX_PRICE && d[j].qty > 0 by {
            assert(d[j] == fs[j]);
        }
        lemma_liquidation_position(c, side, d, p);
        lemma_apply_liquidation_bounds(c, side, fs, p);
        lemma_apply_liquidation_bounds(c, side, d, p);
        let f = fs.last();
        assert(f.price <= MAX_PRICE && f.qty > 0);
        assert(f.price * f.qty <= MAX_PRICE * f.qty) by (nonlinear_arith)
            requires
                f.price <= MAX_PRICE,
        ;
        assert(MAX_PRICE * fills_qty(d) + MAX_PRICE * f.qty == MAX_PRICE * fills_qty(fs));
        assert(MAX_PRICE * fills_qty(fs) <= MAX_PRICE * p);
        assert(signed_notional(f.price, f.qty) == f.price * f.qty);
        assert(apply_liquidation_spec(c, side, d).liquidation_fill_fits(side, f.price, f.qty));
    }
}

/// Fills of positive quantity at prices the exchange can quote.
pub open spec fn quoted_fills(fs: Seq<Fill>) -> bool {
    forall|j: int| 0 <= j < fs.len() ==> #[trigger] fs[j].price <= MAX_PRICE && fs[j].qty > 0
}

/// Closing out a client with an open position sends one market order, on
/// the side that reduces the position (a sell for a long position, a buy
/// for a short one) and for the whole position, and reports the position
/// it closed. Each lot that trades moves the position one lot towards
/// zero, so when the book holds enough the client ends flat, short
/// positions as well as long ones.
pub proof fn law_liquidation_closes(ex: ExchangeView, c: Client)
    requires
        c.liquidation_room(),
        c.position != 0,
    ensures
        ({
            let r = spec_liquidate_client(ex, c);
            let size: int = if c.position > 0 {
                c.position as int
            } else {
                -c.position
            };
            let side = if c.position > 0 {
                Side::Sell
            } else {
                Side::Buy
            };
            let m = ex.market(side, size as u64);
            let t = fills_qty(m.1);
            &&& r.0 == m.0
            &&& r.2.position == c.position
            &&& (quoted_fills(m.1) && t <= size) ==> {
                &&& r.1.position == (if c.position > 0 {
                    c.position - t
                } else {
                    c.position + t
                })
                &&& t == size ==> r.1.position == 0
            }
        }),
{
    let c1 = Client { pre_liq_position: c.position, ..c };
    let size: int = if c.position > 0 {
        c.position as int
    } else {
        -c.position
    };
    let side = if c.position > 0 {
        Side::Sell
    } else {
        Side::Buy
    };
    assert(side == closing_side(c.position));
    assert(size == c.exposure());
    let m = ex.market(side, size as u64);
    assert(m == ex.market(closing_side(c.position), c.exposure() as u64));
    assert(spec_liquidate_client(ex, c).0 == m.0);
    assert(spec_liquidate_client(ex, c).1 == apply_liquidation_spec(c1, side, m.1));
    if quoted_fills(m.1) && fills_qty(m.1) <= size {
        assert(c1.liquidation_room());
        lemma_liquidation_position(c1, side, m.1, c1.exposure());
    }
}

/// Counts each of `fills` as a liquidation fill on `side`.
fn count_liquidation_fills(client: &mut Client, side: Side, fills: &Vec<Fill>)
    requires
        old(client).liquidation_room(),
        fills_qty(fills@) <= old(client).exposure(),
        forall|j: int| 0 <= j < fills@.len() ==> #[trigger] fills@[j].price <= MAX_PRICE && fills@[j].qty > 0,
    ensures
        *final(client) == apply_liquidation_spec(*old(client), side, fills@),
{
    let ghost c1 = *client;
    let ghost fs = fills@;
    let mut i: usize = 0;
    while i < fills.len()
        invariant
            fills@ == fs,
            0 <= i <= fs.len(),
            c1.liquidation_room(),
            fills_qty(fs) <= c1.exposure(),
            forall|j: int| 0 <= j < fs.len() ==> #[trigger] fs[j].price <= MAX_PRICE && fs[j].qty > 0,
            *client == apply_liquidation_spec(c1, side, fs.take(i as int)),
        decreases fs.len() - i,
    {
        let fill = fills[i];
        proof {
            let ti = fs.take(i as int);
            let tn = fs.take(i + 1);
            lemma_fills_qty_push(tn);
            assert(tn.drop_last() =~= ti);
            lemma_fills_qty_prefix(fs, i + 1);
            assert forall|j: int| 0 <= j < tn.len() implies #[trigger] tn[j].price <= MAX_PRICE && tn[j].qty > 0 by {
                assert(tn[j] == fs[j]);
            }
            lemma_apply_liquidation_bounds(c1, side, tn, c1.exposure());
            assert(apply_liquidation_spec(c1, side, tn) == client.liquidated(side, fill.price, fill.qty));
            lemma_apply_liquidation_bounds(c1, side, ti, c1.exposure());
            assert(fill.price * fill.qty <= MAX_PRICE * fill.qty) by (nonlinear_arith)
                requires
                    fill.price <= MAX_PRICE,
            ;
            assert(signed_notional(fill.price, fill.qty) == fill.price * fill.qty);
        }
        client.apply_liquidation_fill(side, fill.price, fill.qty);
        i = i + 1;
    }
    proof {
        assert(fs.take(fs.len() as int) =~= fs);
    }
}

/// Closes out a client's position with a market order for its size and
/// counts the fills as liquidation fills.
/// The side of the order that closes a position.
pub open spec fn closing_side(position: i64) -> Side {
    if position > 0 {
        Side::Sell
    } else {
        Side::Buy
    }
}

/// Sends a market order for the whole of a non-zero position and counts
/// its fills.
fn close_position(exchange: &mut SimExchange, client: &mut Client)
    requires
        old(exchange).wf(),
        old(exchange)@.next_id < u64::MAX,
        old(client).liquidation_room(),
        old(client).position != 0,
    ensures
        final(exchange).wf(),
        final(exchange)@ == old(exchange)@.market(
            closing_side(old(client).position),
            old(client).exposure() as u64,
        ).0,
        *final(client) == apply_liquidation_spec(
            *old(client),
            closing_side(old(client).position),
            old(exchange)@.market(closing_side(old(client).position), old(client).exposure() as u64).1,
        ),
        in_i64(final(client).liquidation_cash - old(client).liquidation_cash),
{
    let position = client.position;
    let (side, qty) = if position > 0 {
        (Side::Sell, position as Qty)
    } else {
        (Side::Buy, (-position) as Qty)
    };
    let fills = exchange.submit_market(side, qty);
    let ghost c1 = *client;
    count_liquidation_fills(client, side, &fills);
    proof {
        lemma_apply_liquidation_bounds(c1, side, fills@, c1.exposure());
    }
}

/// Closes out a client's position with a market order for its size and
/// counts the fills as liquidation fills.
pub fn liquidate_client(exchange: &mut SimExchange, client: &mut Client) -> (r: Liquidation)
    requires
        old(exchange).wf(),
        old(exchange)@.next_id < u64::MAX,
        old(client).liquidation_room(),
    ensures
        final(exchange).wf(),
        (final(exchange)@, *final(client), r) == spec_liquidate_client(old(exchange)@, *old(client)),
{
    client.pre_liq_position = client.position;
    let position = client.position;
    let l1 = exchange.debug_l1();
    let mark_sum = if l1.valid() {
        l1.bid + l1.ask
    } else {
        0
    };
    let old_liquidation_cash = client.liquidation_cash;
    if position != 0 {
        close_position(exchange, client);
    }
    let cash_delta = client.liquidation_cash - old_liquidation_cash;
    Liquidation { position, mark_sum, cash_delta }
}


/// Buying and then selling the same quantity at the same price leaves the
/// position and the cash of an account as they were.
pub proof fn law_round_trip_restores_account(c: Client, price: u64, qty: u64)
    requires
        c.move_fits(Side::Buy, price, qty),
        c.moved(Side::Buy, price, qty).move_fits(Side::Sell, price, qty),
    ensures
        c.moved(Side::Buy, price, qty).moved(Side::Sell, price, qty) == c,
{
}


/// The bytes of an execution report: its fields in order, least
/// significant byte first, the fill price as the bits of its double, with
/// two zero bytes after the side and four after the leaves quantity.
pub open spec fn exec_report_bytes(r: ExecReport, fill_price_bits: u64, timestamp_ns: u64) -> Seq<u8> {
    le_bytes(r.exec_type as nat, 1) + le_bytes(r.side as nat, 1) + le_bytes(0, 2) + le_bytes(
        r.fill_qty as nat,
        4,
    ) + le_bytes(r.order_id as nat, 8) + le_bytes(fill_price_bits as nat, 8) + le_bytes(
        r.leaves_qty as nat,
        4,
    ) + le_bytes(0, 4) + le_bytes(timestamp_ns as nat, 8)
}

pub fn encode_exec_report(r: &ExecReport, fill_price_bits: u64, timestamp_ns: u64) -> (b: Vec<u8>)
    ensures
        b@ == exec_report_bytes(*r, fill_price_bits, timestamp_ns),
{
    proof {
        lemma_pow256_values();
    }
    let mut b: Vec<u8> = Vec::new();
    write_le(&mut b, r.exec_type as u64, 1);
    write_le(&mut b, r.side as u64, 1);
    write_le(&mut b, 0, 2);
    write_le(&mut b, r.fill_qty as u64, 4);
    write_le(&mut b, r.order_id, 8);
    write_le(&mut b, fill_price_bits, 8);
    write_le(&mut b, r.leaves_qty as u64, 4);
    write_le(&mut b, 0, 4);
    write_le(&mut b, timestamp_ns, 8);
    assert(b@ =~= exec_report_bytes(*r, fill_price_bits, timestamp_ns));
    b
}

} // verus!
