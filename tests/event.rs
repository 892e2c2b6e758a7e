use bybit_pipeline::event::OrderEvent;
use bybit_pipeline::fill::{opening_tag, Fill, Side, SCALE};

fn fill(tag: &str, price: u64, qty: u64, fee: u64) -> Fill {
    Fill {
        symbol: "PEOPLEUSDT".to_string(),
        side: Side::Buy,
        order_id: "o".to_string(),
        exec_id: "x".to_string(),
        order_link_id: tag.to_string(),
        price,
        order_qty: qty,
        exec_qty: qty,
        exec_fee: fee,
        leaves_qty: 0,
        is_maker: false,
        trade_time: 0,
    }
}

#[test]
fn aggregates_over_fills() {
    let e = OrderEvent::new(
        "u".to_string(),
        "1".to_string(),
        vec![fill("", 2 * SCALE, 3 * SCALE, 10), fill("", 3 * SCALE, 1 * SCALE, 5), fill("", 5 * SCALE, 1, 0)],
    );
    assert_eq!(e.symbol(), "PEOPLEUSDT");
    assert_eq!(e.fees(), 15);
    assert_eq!(e.quantity(), (4 * SCALE + 1) as u128);
    // unweighted mean of the prices
    assert_eq!(e.price(), (10 * SCALE / 3) as u128);
}

#[test]
fn classification_by_first_fill() {
    let open = OrderEvent::new("u".to_string(), "1".to_string(), vec![fill("sig-1", 1, 1, 0), fill("TP_2", 1, 1, 0)]);
    assert!(open.is_open());
    assert!(!open.is_close());
    let tp = OrderEvent::new("u".to_string(), "1".to_string(), vec![fill("TP_5446", 1, 1, 0), fill("sig", 1, 1, 0)]);
    assert!(tp.is_close());
    assert!(!tp.is_open());
    let empty = OrderEvent::new("u".to_string(), "1".to_string(), vec![fill("", 1, 1, 0)]);
    assert!(empty.is_close());
    let inner = OrderEvent::new("u".to_string(), "1".to_string(), vec![fill("abcTP_1", 1, 1, 0)]);
    assert!(inner.is_open());
    for e in [&open, &tp, &empty, &inner] {
        assert_eq!(e.is_open(), !e.is_close());
    }
}

#[test]
fn only_a_tp_prefix_closes() {
    assert!(opening_tag(&"abc".to_string()));
    assert!(!opening_tag(&"".to_string()));
    assert!(!opening_tag(&"TP_5446".to_string()));
    assert!(!opening_tag(&"TP_".to_string()));
    assert!(opening_tag(&"xTP_y".to_string()));
    assert!(opening_tag(&"abcTP_1".to_string()));
    assert!(opening_tag(&"TP".to_string()));
    assert!(opening_tag(&"T_P_".to_string()));
}

#[test]
fn large_amounts_do_not_overflow() {
    let e = OrderEvent::new("u".to_string(), "1".to_string(), vec![fill("", u64::MAX, u64::MAX, u64::MAX), fill("", u64::MAX, u64::MAX, u64::MAX)]);
    assert_eq!(e.fees(), 2 * u64::MAX as u128);
    assert_eq!(e.price(), u64::MAX as u128);
}
