use bybit_pipeline::fill::{Fill, Side, SCALE};
use bybit_pipeline::event::OrderEvent;
use bybit_pipeline::pnl::{estimate_against_opening, reconcile_fills, Reconciliation, Strategy};
use bybit_pipeline::store::{Exchange, OrderStoreRecord, PnlRecord};

const UNIT: i128 = (SCALE as i128) * (SCALE as i128);

fn fill(tag: &str, side: Side, qty: u64, price: u64, fee: u64, leaves: u64, time: u64) -> Fill {
    Fill {
        symbol: "OCEANUSDT".to_string(),
        side,
        order_id: format!("order-{}", time),
        exec_id: format!("exec-{}", time),
        order_link_id: tag.to_string(),
        price,
        order_qty: qty + leaves,
        exec_qty: qty,
        exec_fee: fee,
        leaves_qty: leaves,
        is_maker: false,
        trade_time: time,
    }
}

fn whole(n: u64) -> u64 {
    n * SCALE
}

#[test]
fn long_position_fully_offset() {
    let fills = vec![
        fill("open-1", Side::Buy, whole(100), whole(10), SCALE / 10, 0, 1),
        fill("TP_1", Side::Sell, whole(100), whole(12), 12 * SCALE / 100, 0, 2),
    ];
    // 1200 - 1000 - 0.22 = 199.78
    assert_eq!(reconcile_fills(&fills, Some(SCALE / 1000)), Reconciliation::Realized(19978 * UNIT / 100));
}

#[test]
fn short_position_fully_offset() {
    let fills = vec![
        fill("open-1", Side::Sell, whole(50), whole(20), 5 * SCALE / 100, 0, 1),
        fill("", Side::Buy, whole(50), whole(18), 4 * SCALE / 100, 0, 2),
    ];
    // 1000 - 900 - 0.09 = 99.91
    assert_eq!(reconcile_fills(&fills, None), Reconciliation::Realized(9991 * UNIT / 100));
}

#[test]
fn partial_close_beyond_tolerance_adds_leaves() {
    let fills = vec![
        fill("open-1", Side::Buy, whole(100), whole(10), 0, 0, 1),
        fill("TP_1", Side::Sell, whole(60), whole(15), 0, whole(40), 2),
    ];
    // final collateral 900 + 15 * 40 = 1500, initial 1000
    assert_eq!(reconcile_fills(&fills, Some(SCALE / 1000)), Reconciliation::Realized(500 * UNIT));
}

#[test]
fn difference_equal_to_step_is_within_tolerance() {
    let fills = vec![
        fill("open-1", Side::Buy, whole(100), whole(10), 0, 0, 1),
        fill("TP_1", Side::Sell, whole(99), whole(12), 0, whole(1), 2),
    ];
    assert_eq!(reconcile_fills(&fills, Some(whole(1))), Reconciliation::Realized(188 * UNIT));
    // one unit under the gap: the remainder is closed at the last price
    assert_eq!(reconcile_fills(&fills, Some(whole(1) - 1)), Reconciliation::Realized(200 * UNIT));
}

#[test]
fn unknown_step_means_exact_equality() {
    let fills = vec![
        fill("open-1", Side::Buy, whole(100), whole(10), 0, 0, 1),
        fill("TP_1", Side::Sell, whole(99), whole(12), 0, whole(1), 2),
    ];
    assert_eq!(reconcile_fills(&fills, None), Reconciliation::Realized(200 * UNIT));
}

#[test]
fn no_closing_fill_stays_pending() {
    let fills = vec![fill("open-1", Side::Buy, whole(100), whole(10), 0, 0, 1)];
    assert_eq!(reconcile_fills(&fills, None), Reconciliation::Pending);
    assert_eq!(reconcile_fills(&Vec::new(), None), Reconciliation::Pending);
}

#[test]
fn closing_without_opening_is_reported() {
    let fills = vec![fill("TP_1", Side::Sell, whole(100), whole(10), 0, 0, 1)];
    assert_eq!(reconcile_fills(&fills, None), Reconciliation::MissingOpening);
}

#[test]
fn last_closing_fill_is_latest_by_trade_time() {
    let fills = vec![
        fill("open-1", Side::Buy, whole(100), whole(10), 0, 0, 1),
        fill("TP_2", Side::Sell, whole(30), whole(11), 0, whole(10), 9),
        fill("", Side::Sell, whole(30), whole(13), 0, whole(40), 5),
    ];
    // closes 330 + 390 = 720; latest close (time 9) adds 11 * 10 = 110
    assert_eq!(reconcile_fills(&fills, Some(whole(1))), Reconciliation::Realized((720 + 110 - 1000) * UNIT));
}

#[test]
fn first_opening_fill_sets_direction() {
    let fills = vec![
        fill("TP_0", Side::Buy, whole(10), whole(10), 0, 0, 1),
        fill("open-1", Side::Sell, whole(10), whole(20), 0, 0, 2),
        fill("open-2", Side::Buy, whole(10), whole(20), 0, 0, 3),
    ];
    // short: initial 400 - final 100 (only closes counted)
    let r = reconcile_fills(&fills, None);
    assert_eq!(r, Reconciliation::Realized(300 * UNIT));
}

fn record(f: Fill) -> OrderStoreRecord {
    OrderStoreRecord {
        user_id: "u1".to_string(),
        stream_id: "7".to_string(),
        exchange: Exchange::Bybit,
        fill: f,
        timestamp: 100,
    }
}

fn pending() -> PnlRecord {
    PnlRecord {
        user_id: "u1".to_string(),
        exchange: Exchange::Bybit,
        symbol: "OCEANUSDT".to_string(),
        stream_id: "7".to_string(),
        timestamp: 100,
        opening_exec_id: "exec-1".to_string(),
        pnl: None,
    }
}

#[test]
fn pnl_record_realized_once() {
    let records = vec![
        record(fill("open-1", Side::Buy, whole(100), whole(10), SCALE / 10, 0, 1)),
        record(fill("TP_1", Side::Sell, whole(100), whole(12), 12 * SCALE / 100, 0, 2)),
    ];
    let mut p = pending();
    assert!(!p.is_realized());
    let r = p.reconcile(&records, None);
    assert_eq!(r, Reconciliation::Realized(19978 * UNIT / 100));
    assert_eq!(p.pnl, Some(19978 * UNIT / 100));
    // a replay with other fills leaves the realized value alone
    let more = vec![
        record(fill("open-1", Side::Buy, whole(100), whole(10), 0, 0, 1)),
        record(fill("TP_1", Side::Sell, whole(100), whole(50), 0, 0, 2)),
    ];
    p.reconcile(&more, None);
    assert_eq!(p.pnl, Some(19978 * UNIT / 100));
    p.apply(Reconciliation::Realized(1));
    assert_eq!(p.pnl, Some(19978 * UNIT / 100));
}

#[test]
fn pending_record_waits_for_closes() {
    let records = vec![record(fill("open-1", Side::Buy, whole(100), whole(10), 0, 0, 1))];
    let mut p = pending();
    assert_eq!(p.reconcile(&records, None), Reconciliation::Pending);
    assert_eq!(p.pnl, None);
    p.apply(Reconciliation::MissingOpening);
    assert_eq!(p.pnl, None);
}

#[test]
fn per_close_estimate_uses_mean_prices() {
    let opening = vec![
        fill("open-1", Side::Buy, whole(50), whole(10), SCALE / 10, 0, 1),
        fill("open-1", Side::Buy, whole(50), whole(12), SCALE / 10, 0, 2),
    ];
    let close = OrderEvent::new(
        "u".to_string(),
        "7".to_string(),
        vec![fill("TP_1", Side::Sell, whole(100), whole(12), 12 * SCALE / 100, 0, 3)],
    );
    // 1200 - 11 * 100 - 0.32 = 99.68
    assert_eq!(estimate_against_opening(&opening, &close), (9968 * UNIT / 100, Strategy::LongTonic));
    let short_open = vec![fill("open-2", Side::Sell, whole(100), whole(12), 0, 0, 1)];
    assert_eq!(estimate_against_opening(&short_open, &close), (-12 * UNIT / 100, Strategy::ShortColada));
}

#[test]
fn inner_tp_marker_is_an_opening_fill() {
    // "xTP_1" is not TP_-prefixed, so nothing here closes the position
    let fills = vec![
        fill("open-1", Side::Buy, whole(100), whole(10), 0, 0, 1),
        fill("xTP_1", Side::Sell, whole(100), whole(12), 0, 0, 2),
    ];
    assert_eq!(reconcile_fills(&fills, None), Reconciliation::Pending);
    let records = vec![record(fills[0].duplicate()), record(fills[1].duplicate())];
    let mut p = pending();
    assert_eq!(p.reconcile(&records, None), Reconciliation::Pending);
    assert_eq!(p.pnl, None);
}
