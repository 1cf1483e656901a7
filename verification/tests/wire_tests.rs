use matching_engine::server::gateway::{encode_exec_report, ExecReport};
use matching_engine::server::wire::{
    decode_order_msg, drain_order_msgs, encode_md_quote, encode_md_reference, encode_order_msg, read_le, write_le,
    RawOrderMsg, WireMdHeader, EXEC_FILL, MD_MSG_QUOTE, MD_MSG_REFERENCE, ORDER_MSG_NEW,
    ORDER_MSG_SIZE, ORDER_TYPE_IOC_LIMIT, SIDE_SELL,
};

#[test]
fn little_endian_fields() {
    let mut out = Vec::new();
    write_le(&mut out, 0x0102_0304, 4);
    write_le(&mut out, 0xff, 1);
    assert_eq!(out, vec![4, 3, 2, 1, 0xff]);
    assert_eq!(read_le(&out, 0, 4), 0x0102_0304);
    assert_eq!(read_le(&out, 1, 2), 0x0203);
    assert_eq!(read_le(&out, 4, 1), 0xff);
    assert_eq!(read_le(&out, 2, 0), 0);
}

#[test]
fn order_message_round_trip() {
    let m = RawOrderMsg {
        msg_type: ORDER_MSG_NEW,
        side: SIDE_SELL,
        order_type: ORDER_TYPE_IOC_LIMIT,
        client_order_id: 0x1122_3344_5566_7788,
        price_bits: 10_001.0f64.to_bits(),
        qty: 7,
        cancel_order_id: 9,
    };
    let b = encode_order_msg(&m);
    assert_eq!(b.len(), ORDER_MSG_SIZE);
    assert_eq!(&b[0..8], &[ORDER_MSG_NEW, SIDE_SELL, ORDER_TYPE_IOC_LIMIT, 0, 0, 0, 0, 0]);
    assert_eq!(&b[8..16], &0x1122_3344_5566_7788u64.to_le_bytes());
    assert_eq!(&b[16..24], &10_001.0f64.to_le_bytes());
    assert_eq!(&b[24..32], &[7, 0, 0, 0, 0, 0, 0, 0]);
    assert_eq!(decode_order_msg(&b), m);
    let mut longer = b.clone();
    longer.extend_from_slice(&[1, 2, 3]);
    assert_eq!(decode_order_msg(&longer), m);
}

#[test]
fn exec_report_layout() {
    let r = ExecReport { exec_type: EXEC_FILL, side: 0, fill_qty: 2, order_id: 42, fill_price: 100, leaves_qty: 3 };
    let b = encode_exec_report(&r, 100.0f64.to_bits(), 7);
    let mut expected = vec![EXEC_FILL, 0, 0, 0, 2, 0, 0, 0];
    expected.extend_from_slice(&42u64.to_le_bytes());
    expected.extend_from_slice(&100.0f64.to_le_bytes());
    expected.extend_from_slice(&[3, 0, 0, 0, 0, 0, 0, 0]);
    expected.extend_from_slice(&7u64.to_le_bytes());
    assert_eq!(b, expected);
}

#[test]
fn market_data_layout() {
    let h = WireMdHeader { timestamp_ns: 5, instrument_id: 1, sequence_num: 2, msg_type: MD_MSG_QUOTE, _pad: [0; 7] };
    let q = encode_md_quote(&h, 9_999.0f64.to_bits(), 10_001.0f64.to_bits(), 3, 4);
    assert_eq!(q.len(), 48);
    assert_eq!(&q[0..8], &5u64.to_le_bytes());
    assert_eq!(&q[8..16], &[1, 0, 0, 0, 2, 0, 0, 0]);
    assert_eq!(&q[16..24], &[MD_MSG_QUOTE, 0, 0, 0, 0, 0, 0, 0]);
    assert_eq!(&q[24..32], &9_999.0f64.to_le_bytes());
    assert_eq!(&q[32..40], &10_001.0f64.to_le_bytes());
    assert_eq!(&q[40..48], &[3, 0, 0, 0, 4, 0, 0, 0]);
    let h2 = WireMdHeader { msg_type: MD_MSG_REFERENCE, ..h };
    let r = encode_md_reference(&h2, 10_006.0f64.to_bits());
    assert_eq!(r.len(), 40);
    assert_eq!(&r[24..32], &10_006.0f64.to_le_bytes());
    assert_eq!(&r[32..40], &[0; 8]);
}

#[test]
fn framing_takes_whole_messages() {
    let m1 = RawOrderMsg {
        msg_type: ORDER_MSG_NEW,
        side: SIDE_SELL,
        order_type: ORDER_TYPE_IOC_LIMIT,
        client_order_id: 1,
        price_bits: 9_999.0f64.to_bits(),
        qty: 3,
        cancel_order_id: 0,
    };
    let m2 = RawOrderMsg { client_order_id: 2, qty: 5, ..m1 };
    let mut buf = encode_order_msg(&m1);
    buf.extend(encode_order_msg(&m2));
    buf.extend_from_slice(&[7, 8, 9]);
    let msgs = drain_order_msgs(&mut buf);
    assert_eq!(msgs, vec![m1, m2]);
    assert_eq!(buf, vec![7, 8, 9]);

    let mut short = vec![1u8; ORDER_MSG_SIZE - 1];
    assert!(drain_order_msgs(&mut short).is_empty());
    assert_eq!(short.len(), ORDER_MSG_SIZE - 1);

    let mut empty: Vec<u8> = Vec::new();
    assert!(drain_order_msgs(&mut empty).is_empty());
    assert!(empty.is_empty());
}
