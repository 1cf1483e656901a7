//! Wire protocol constants and the plain fields of its messages.
use vstd::prelude::*;
use crate::types::Side;
use vstd::slice::slice_subrange;

verus! {

pub const MD_MSG_QUOTE: u8 = 1;

pub const MD_MSG_DEPTH: u8 = 2;

pub const MD_MSG_TRADE: u8 = 3;

pub const MD_MSG_REFERENCE: u8 = 4;

pub const ORDER_MSG_NEW: u8 = 1;

pub const ORDER_MSG_CANCEL: u8 = 2;

pub const SIDE_BUY: u8 = 0;

pub const SIDE_SELL: u8 = 1;

pub const ORDER_TYPE_LIMIT: u8 = 0;

pub const ORDER_TYPE_MARKET: u8 = 1;

pub const ORDER_TYPE_IOC_LIMIT: u8 = 2;

pub const EXEC_NEW_ACK: u8 = 0;

pub const EXEC_FILL: u8 = 1;

pub const EXEC_PARTIAL_FILL: u8 = 2;

pub const EXEC_CANCEL_ACK: u8 = 3;

pub const EXEC_REJECT: u8 = 4;

pub const EXEC_CANCEL_REJECT: u8 = 5;

pub const DEFAULT_MD_PORT: u16 = 12345;

pub const DEFAULT_ORDER_PORT: u16 = 12346;

pub const DEFAULT_INSTRUMENT_ID: u32 = 1;

/// Header shared by every market data message.
#[derive(Clone, Copy)]
pub struct WireMdHeader {
    pub timestamp_ns: u64,
    pub instrument_id: u32,
    pub sequence_num: u32,
    pub msg_type: u8,
    pub _pad: [u8; 7],
}

pub open spec fn spec_side_to_wire(side: Side) -> u8 {
    match side {
        Side::Buy => SIDE_BUY,
        Side::Sell => SIDE_SELL,
    }
}

/// Any byte other than the buy code reads as a sell.
pub open spec fn spec_wire_to_side(wire: u8) -> Side {
    if wire == SIDE_BUY {
        Side::Buy
    } else {
        Side::Sell
    }
}

pub fn side_to_wire(side: Side) -> (w: u8)
    ensures
        w == spec_side_to_wire(side),
{
    match side {
        Side::Buy => SIDE_BUY,
        Side::Sell => SIDE_SELL,
    }
}

pub fn wire_to_side(wire: u8) -> (s: Side)
    ensures
        s == spec_wire_to_side(wire),
{
    if wire == SIDE_BUY {
        Side::Buy
    } else {
        Side::Sell
    }
}

/// Reading back the code of a side gives that side.
pub proof fn law_side_round_trip(side: Side)
    ensures
        spec_wire_to_side(spec_side_to_wire(side)) == side,
{
    match side {
        Side::Buy => {},
        Side::Sell => {},
    }
}


/// `256` to the power `n`.
pub open spec fn pow256(n: nat) -> nat
    decreases n,
{
    if n == 0 {
        1
    } else {
        256 * pow256((n - 1) as nat)
    }
}

/// The number held in the `n` bytes of `b` from `off`, least significant
/// byte first.
pub open spec fn le_value(b: Seq<u8>, off: int, n: nat) -> nat
    decreases n,
{
    if n == 0 {
        0
    } else {
        b[off] as nat + 256 * le_value(b, off + 1, (n - 1) as nat)
    }
}

/// The `n` bytes of `v`, least significant first.
pub open spec fn le_bytes(v: nat, n: nat) -> Seq<u8>
    decreases n,
{
    if n == 0 {
        Seq::empty()
    } else {
        seq![(v % 256) as u8] + le_bytes(v / 256, (n - 1) as nat)
    }
}

proof fn lemma_le_value_bound(b: Seq<u8>, off: int, n: nat)
    ensures
        le_value(b, off, n) < pow256(n),
    decreases n,
{
    if n > 0 {
        lemma_le_value_bound(b, off + 1, (n - 1) as nat);
        assert(b[off] < 256);
    }
}

proof fn lemma_pow256_bounds(n: nat)
    requires
        n <= 8,
    ensures
        n <= 7 ==> pow256(n) * 256 <= 0x1_0000_0000_0000_0000,
        pow256(n) <= 0x1_0000_0000_0000_0000,
        pow256(n) >= 1,
{
    reveal_with_fuel(pow256, 9);
}

/// Reading back the bytes of a number gives the number.
pub proof fn law_le_round_trip(v: nat, n: nat)
    requires
        v < pow256(n),
    ensures
        le_bytes(v, n).len() == n,
        le_value(le_bytes(v, n), 0, n) == v,
    decreases n,
{
    if n > 0 {
        let rest = le_bytes(v / 256, (n - 1) as nat);
        law_le_round_trip(v / 256, (n - 1) as nat);
        let b = le_bytes(v, n);
        assert forall|i: int| 0 <= i < rest.len() implies b[i + 1] == rest[i] by {}
        lemma_le_value_shift(b, rest, (n - 1) as nat);
    }
}

proof fn lemma_le_value_shift(b: Seq<u8>, rest: Seq<u8>, n: nat)
    requires
        b.len() == rest.len() + 1,
        rest.len() >= n,
        forall|i: int| 0 <= i < rest.len() ==> b[i + 1] == rest[i],
    ensures
        le_value(b, 1, n) == le_value(rest, 0, n),
{
    assert forall|j: int| 1 <= j < 1 + n implies #[trigger] b[j] == rest[j - 1] by {
        assert(b[(j - 1) + 1] == rest[j - 1]);
    }
    lemma_le_value_offset(b, rest, 1, 0, n);
}

proof fn lemma_le_value_offset(b: Seq<u8>, c: Seq<u8>, ob: int, oc: int, n: nat)
    requires
        forall|j: int| ob <= j < ob + n ==> #[trigger] b[j] == c[j - ob + oc],
    ensures
        le_value(b, ob, n) == le_value(c, oc, n),
    decreases n,
{
    if n > 0 {
        assert(b[ob] == c[oc]);
        assert forall|j: int| ob + 1 <= j < ob + 1 + (n - 1) implies #[trigger] b[j] == c[j - (ob + 1) + (oc + 1)] by {
            assert(b[j] == c[j - ob + oc]);
        }
        lemma_le_value_offset(b, c, ob + 1, oc + 1, (n - 1) as nat);
    }
}

/// The number in the `n <= 8` bytes of `b` from `off`, least significant
/// first.
pub fn read_le(b: &[u8], off: usize, n: usize) -> (v: u64)
    requires
        off + n <= b.len(),
        n <= 8,
    ensures
        v == le_value(b@, off as int, n as nat),
{
    let mut acc: u64 = 0;
    let mut k: usize = n;
    proof {
        lemma_pow256_bounds(n as nat);
    }
    while k > 0
        invariant
            k <= n <= 8,
            off + n <= b.len(),
            acc == le_value(b@, off + k, (n - k) as nat),
        decreases k,
    {
        proof {
            lemma_le_value_bound(b@, off + k, (n - k) as nat);
            lemma_pow256_bounds((n - k) as nat);
        }
        acc = acc * 256 + b[off + k - 1] as u64;
        k = k - 1;
    }
    acc
}

/// Appends the `n <= 8` bytes of `v`, least significant first.
pub fn write_le(out: &mut Vec<u8>, v: u64, n: usize)
    requires
        n <= 8,
        v < pow256(n as nat),
    ensures
        final(out)@ == old(out)@ + le_bytes(v as nat, n as nat),
{
    let ghost o0 = out@;
    let mut rest: u64 = v;
    let mut k: usize = 0;
    while k < n
        invariant
            k <= n,
            o0 + le_bytes(v as nat, n as nat) == out@ + le_bytes(rest as nat, (n - k) as nat),
        decreases n - k,
    {
        proof {
            let tail = le_bytes(rest as nat, (n - k) as nat);
            assert(tail == seq![(rest % 256) as u8] + le_bytes((rest / 256) as nat, (n - k - 1) as nat));
            assert(out@.push((rest % 256) as u8) + le_bytes((rest / 256) as nat, (n - k - 1) as nat)
                =~= out@ + tail);
        }
        out.push((rest % 256) as u8);
        rest = rest / 256;
        k = k + 1;
    }
    assert(out@ =~= o0 + le_bytes(v as nat, n as nat));
}


pub proof fn lemma_pow256_values()
    ensures
        pow256(1) == 0x100,
        pow256(4) == 0x1_0000_0000,
        pow256(5) == 0x100_0000_0000,
        pow256(7) == 0x100_0000_0000_0000,
        pow256(8) == 0x1_0000_0000_0000_0000,
{
    reveal_with_fuel(pow256, 9);
}

/// The field of `n` bytes at `off` of a message that holds `le_bytes(v, n)`
/// there reads back as `v`.
proof fn lemma_field(b: Seq<u8>, off: int, v: nat, n: nat)
    requires
        v < pow256(n),
        0 <= off,
        off + n <= b.len(),
        b.subrange(off, off + n) == le_bytes(v, n),
    ensures
        le_value(b, off, n) == v,
{
    law_le_round_trip(v, n);
    let f = le_bytes(v, n);
    assert forall|j: int| off <= j < off + n implies #[trigger] b[j] == f[j - off + 0] by {
        assert(b.subrange(off, off + n)[j - off] == b[j]);
    }
    lemma_le_value_offset(b, f, off, 0, n);
}

/// Size in bytes of an order message.
pub const ORDER_MSG_SIZE: usize = 40;

/// Size in bytes of an execution report.
pub const EXEC_REPORT_SIZE: usize = 40;

/// An order message as it travels, with the limit price still as the bits
/// of its IEEE 754 double.
#[derive(Debug, Clone, Copy, PartialEq, Eq, Structural)]
pub struct RawOrderMsg {
    pub msg_type: u8,
    pub side: u8,
    pub order_type: u8,
    pub client_order_id: u64,
    pub price_bits: u64,
    pub qty: u32,
    pub cancel_order_id: u64,
}

/// The bytes of an order message: its fields in order, least significant
/// byte first, with five zero bytes after the order type and four after
/// the quantity.
pub open spec fn order_msg_bytes(m: RawOrderMsg) -> Seq<u8> {
    le_bytes(m.msg_type as nat, 1) + le_bytes(m.side as nat, 1) + le_bytes(m.order_type as nat, 1)
        + le_bytes(0, 5) + le_bytes(m.client_order_id as nat, 8) + le_bytes(m.price_bits as nat, 8)
        + le_bytes(m.qty as nat, 4) + le_bytes(0, 4) + le_bytes(m.cancel_order_id as nat, 8)
}

/// The order message that the first bytes of `b` hold.
pub open spec fn decoded_order_msg(b: Seq<u8>) -> RawOrderMsg {
    RawOrderMsg {
        msg_type: le_value(b, 0, 1) as u8,
        side: le_value(b, 1, 1) as u8,
        order_type: le_value(b, 2, 1) as u8,
        client_order_id: le_value(b, 8, 8) as u64,
        price_bits: le_value(b, 16, 8) as u64,
        qty: le_value(b, 24, 4) as u32,
        cancel_order_id: le_value(b, 32, 8) as u64,
    }
}

pub fn encode_order_msg(m: &RawOrderMsg) -> (b: Vec<u8>)
    ensures
        b@ == order_msg_bytes(*m),
        b@.len() == ORDER_MSG_SIZE,
{
    proof {
        lemma_pow256_values();
        law_le_round_trip(m.msg_type as nat, 1);
        law_le_round_trip(m.side as nat, 1);
        law_le_round_trip(m.order_type as nat, 1);
        law_le_round_trip(0, 5);
        law_le_round_trip(m.client_order_id as nat, 8);
        law_le_round_trip(m.price_bits as nat, 8);
        law_le_round_trip(m.qty as nat, 4);
        law_le_round_trip(0, 4);
        law_le_round_trip(m.cancel_order_id as nat, 8);
    }
    let mut b: Vec<u8> = Vec::new();
    write_le(&mut b, m.msg_type as u64, 1);
    write_le(&mut b, m.side as u64, 1);
    write_le(&mut b, m.order_type as u64, 1);
    write_le(&mut b, 0, 5);
    write_le(&mut b, m.client_order_id, 8);
    write_le(&mut b, m.price_bits, 8);
    write_le(&mut b, m.qty as u64, 4);
    write_le(&mut b, 0, 4);
    write_le(&mut b, m.cancel_order_id, 8);
    assert(b@ =~= order_msg_bytes(*m));
    b
}

pub fn decode_order_msg(b: &[u8]) -> (m: RawOrderMsg)
    requires
        b.len() >= ORDER_MSG_SIZE,
    ensures
        m == decoded_order_msg(b@),
{
    proof {
        lemma_pow256_values();
        lemma_le_value_bound(b@, 0, 1);
        lemma_le_value_bound(b@, 1, 1);
        lemma_le_value_bound(b@, 2, 1);
        lemma_le_value_bound(b@, 24, 4);
    }
    RawOrderMsg {
        msg_type: read_le(b, 0, 1) as u8,
        side: read_le(b, 1, 1) as u8,
        order_type: read_le(b, 2, 1) as u8,
        client_order_id: read_le(b, 8, 8),
        price_bits: read_le(b, 16, 8),
        qty: read_le(b, 24, 4) as u32,
        cancel_order_id: read_le(b, 32, 8),
    }
}

/// The `i`-th whole order message in `b`.
pub open spec fn framed_order_msg(b: Seq<u8>, i: int) -> RawOrderMsg {
    decoded_order_msg(b.subrange(i * ORDER_MSG_SIZE, (i + 1) * ORDER_MSG_SIZE))
}

/// Takes every whole order message off the front of `buf`, in order, and
/// leaves the bytes of an incomplete one, if any, for the next read.
pub fn drain_order_msgs(buf: &mut Vec<u8>) -> (msgs: Vec<RawOrderMsg>)
    ensures
        msgs.len() == old(buf).len() / ORDER_MSG_SIZE,
        forall|i: int| 0 <= i < msgs.len() ==> #[trigger] msgs[i] == framed_order_msg(old(buf)@, i),
        final(buf)@ == old(buf)@.skip(msgs.len() * ORDER_MSG_SIZE),
{
    let count = buf.len() / ORDER_MSG_SIZE;
    let whole = count * ORDER_MSG_SIZE;
    let rest = buf.split_off(whole);
    let mut msgs: Vec<RawOrderMsg> = Vec::new();
    let mut k: usize = 0;
    while k < count
        invariant
            count == old(buf).len() / ORDER_MSG_SIZE,
            whole == count * ORDER_MSG_SIZE,
            buf@ == old(buf)@.subrange(0, whole as int),
            k <= count,
            msgs.len() == k,
            forall|i: int| 0 <= i < k ==> #[trigger] msgs[i] == framed_order_msg(old(buf)@, i),
        decreases count - k,
    {
        let start = k * ORDER_MSG_SIZE;
        let frame = slice_subrange(buf.as_slice(), start, start + ORDER_MSG_SIZE);
        assert(frame@ =~= old(buf)@.subrange(k * ORDER_MSG_SIZE, (k + 1) * ORDER_MSG_SIZE));
        msgs.push(decode_order_msg(frame));
        k = k + 1;
    }
    *buf = rest;
    msgs
}

/// Decoding the bytes of an order message gives the message back.
pub proof fn law_order_msg_round_trip(m: RawOrderMsg)
    ensures
        order_msg_bytes(m).len() == ORDER_MSG_SIZE,
        decoded_order_msg(order_msg_bytes(m)) == m,
{
    lemma_pow256_values();
    let p0 = le_bytes(m.msg_type as nat, 1);
    let p1 = le_bytes(m.side as nat, 1);
    let p2 = le_bytes(m.order_type as nat, 1);
    let p3 = le_bytes(0, 5);
    let p4 = le_bytes(m.client_order_id as nat, 8);
    let p5 = le_bytes(m.price_bits as nat, 8);
    let p6 = le_bytes(m.qty as nat, 4);
    let p7 = le_bytes(0, 4);
    let p8 = le_bytes(m.cancel_order_id as nat, 8);
    law_le_round_trip(m.msg_type as nat, 1);
    law_le_round_trip(m.side as nat, 1);
    law_le_round_trip(m.order_type as nat, 1);
    law_le_round_trip(0, 5);
    law_le_round_trip(m.client_order_id as nat, 8);
    law_le_round_trip(m.price_bits as nat, 8);
    law_le_round_trip(m.qty as nat, 4);
    law_le_round_trip(0, 4);
    law_le_round_trip(m.cancel_order_id as nat, 8);
    let b = order_msg_bytes(m);
    assert(b.len() == 40);
    assert(b.subrange(0, 1) =~= p0);
    assert(b.subrange(1, 2) =~= p1);
    assert(b.subrange(2, 3) =~= p2);
    assert(b.subrange(8, 16) =~= p4);
    assert(b.subrange(16, 24) =~= p5);
    assert(b.subrange(24, 28) =~= p6);
    assert(b.subrange(32, 40) =~= p8);
    lemma_field(b, 0, m.msg_type as nat, 1);
    lemma_field(b, 1, m.side as nat, 1);
    lemma_field(b, 2, m.order_type as nat, 1);
    lemma_field(b, 8, m.client_order_id as nat, 8);
    lemma_field(b, 16, m.price_bits as nat, 8);
    lemma_field(b, 24, m.qty as nat, 4);
    lemma_field(b, 32, m.cancel_order_id as nat, 8);
}


/// Size in bytes of a market data header.
pub const MD_HEADER_SIZE: usize = 24;

/// Size in bytes of a quote message.
pub const MD_QUOTE_SIZE: usize = 48;

/// Size in bytes of a reference price message.
pub const MD_REFERENCE_SIZE: usize = 40;

/// The bytes of a market data header, least significant byte first.
pub open spec fn md_header_bytes(h: WireMdHeader) -> Seq<u8> {
    le_bytes(h.timestamp_ns as nat, 8) + le_bytes(h.instrument_id as nat, 4) + le_bytes(
        h.sequence_num as nat,
        4,
    ) + le_bytes(h.msg_type as nat, 1) + h._pad@
}

fn write_md_header(out: &mut Vec<u8>, h: &WireMdHeader)
    ensures
        final(out)@ == old(out)@ + md_header_bytes(*h),
{
    let ghost o0 = out@;
    proof {
        lemma_pow256_values();
    }
    write_le(out, h.timestamp_ns, 8);
    write_le(out, h.instrument_id as u64, 4);
    write_le(out, h.sequence_num as u64, 4);
    write_le(out, h.msg_type as u64, 1);
    let ghost o1 = out@;
    let mut i: usize = 0;
    while i < 7
        invariant
            0 <= i <= 7,
            h._pad@.len() == 7,
            out@ == o1 + h._pad@.take(i as int),
        decreases 7 - i,
    {
        out.push(h._pad[i]);
        assert(out@ =~= o1 + h._pad@.take(i + 1));
        i = i + 1;
    }
    assert(h._pad@.take(7) =~= h._pad@);
    assert(out@ =~= o0 + md_header_bytes(*h));
}

/// The bytes of a quote: the header, the bid and ask prices as the bits of
/// their doubles, then the bid and ask sizes.
pub open spec fn md_quote_bytes(h: WireMdHeader, bid_bits: u64, ask_bits: u64, bid_size: u32, ask_size: u32) -> Seq<u8> {
    md_header_bytes(h) + le_bytes(bid_bits as nat, 8) + le_bytes(ask_bits as nat, 8) + le_bytes(
        bid_size as nat,
        4,
    ) + le_bytes(ask_size as nat, 4)
}

pub fn encode_md_quote(h: &WireMdHeader, bid_bits: u64, ask_bits: u64, bid_size: u32, ask_size: u32) -> (b: Vec<u8>)
    ensures
        b@ == md_quote_bytes(*h, bid_bits, ask_bits, bid_size, ask_size),
{
    proof {
        lemma_pow256_values();
    }
    let mut b: Vec<u8> = Vec::new();
    write_md_header(&mut b, h);
    write_le(&mut b, bid_bits, 8);
    write_le(&mut b, ask_bits, 8);
    write_le(&mut b, bid_size as u64, 4);
    write_le(&mut b, ask_size as u64, 4);
    assert(b@ =~= md_quote_bytes(*h, bid_bits, ask_bits, bid_size, ask_size));
    b
}

/// The bytes of a reference price message: the header, the price as the
/// bits of its double, and eight zero bytes.
pub open spec fn md_reference_bytes(h: WireMdHeader, mid_bits: u64) -> Seq<u8> {
    md_header_bytes(h) + le_bytes(mid_bits as nat, 8) + le_bytes(0, 8)
}

pub fn encode_md_reference(h: &WireMdHeader, mid_bits: u64) -> (b: Vec<u8>)
    ensures
        b@ == md_reference_bytes(*h, mid_bits),
{
    proof {
        lemma_pow256_values();
    }
    let mut b: Vec<u8> = Vec::new();
    write_md_header(&mut b, h);
    write_le(&mut b, mid_bits, 8);
    write_le(&mut b, 0, 8);
    assert(b@ =~= md_reference_bytes(*h, mid_bits));
    b
}

} // verus!
