use bybit_pipeline::envelope::{decode_payload, event_from_envelope, Envelope};
use bybit_pipeline::event::OrderEvent;
use bybit_pipeline::fill::{Fill, Side, SCALE};
use bybit_pipeline::store::{records_for_event, EnvelopeError, Exchange};
use bybit_pipeline::writer::{process_batch, write_batch, FillLog, PnlLog};

fn fill(exec_id: &str, tag: &str) -> Fill {
    Fill {
        symbol: "WOOUSDT".to_string(),
        side: Side::Buy,
        order_id: "o1".to_string(),
        exec_id: exec_id.to_string(),
        order_link_id: tag.to_string(),
        price: 19850000,
        order_qty: 742 * SCALE,
        exec_qty: 742 * SCALE,
        exec_fee: 1473267,
        leaves_qty: 0,
        is_maker: true,
        trade_time: 1653407815000,
    }
}

fn event(user: &str, fills: Vec<Fill>) -> OrderEvent {
    OrderEvent::new(user.to_string(), "333".to_string(), fills)
}

#[test]
fn one_record_per_fill_across_records() {
    let batch = vec![
        Ok(event("a", vec![fill("e1", "open"), fill("e2", "open")])),
        Ok(event("b", vec![fill("e3", "TP_1")])),
    ];
    let report = process_batch(&batch, 42);
    assert_eq!(report.records.len(), 3);
    assert_eq!(report.records[0].fill.exec_id, "e1");
    assert_eq!(report.records[1].fill.exec_id, "e2");
    assert_eq!(report.records[2].fill.exec_id, "e3");
    assert_eq!(report.records[2].user_id, "b");
    assert_eq!(report.records[2].stream_id, "333");
    assert_eq!(report.records[2].exchange, Exchange::Bybit);
    assert_eq!(report.records[0].timestamp, 42);
    assert!(report.failures.is_empty());
    assert_eq!(report.pending.len(), 1);
    assert_eq!(report.pending[0].user_id, "a");
    assert_eq!(report.pending[0].symbol, "WOOUSDT");
    assert_eq!(report.pending[0].pnl, None);
    assert_eq!(report.pending[0].opening_exec_id, "e1");
}

#[test]
fn malformed_record_is_isolated() {
    let batch = vec![
        Ok(event("a", vec![fill("e1", "")])),
        Err(EnvelopeError::Json),
        Ok(event("c", vec![fill("e3", ""), fill("e4", "")])),
    ];
    let report = process_batch(&batch, 1);
    assert_eq!(report.records.len(), 3);
    assert_eq!(report.records[0].user_id, "a");
    assert_eq!(report.records[1].user_id, "c");
    assert_eq!(report.records[2].fill.exec_id, "e4");
    assert_eq!(report.failures, vec![(1, EnvelopeError::Json)]);
    assert!(report.pending.is_empty());
}

#[test]
fn malformed_payload_in_delivered_batch() {
    let good = base64::encode(r#"["u1","9","{}"]"#);
    let payloads = vec![good.clone(), "%%% not base64".to_string(), good];
    let mut batch = Vec::new();
    for p in &payloads {
        batch.push(decode_payload(p).and_then(|env| event_from_envelope(env, vec![fill("e", "")])));
    }
    let report = process_batch(&batch, 5);
    assert_eq!(report.records.len(), 2);
    assert_eq!(report.failures, vec![(1, EnvelopeError::Base64)]);
}

#[test]
fn records_copy_every_fill() {
    let e = event("a", vec![fill("e1", "x"), fill("e2", "y")]);
    let recs = records_for_event(&e, 7);
    assert_eq!(recs.len(), 2);
    assert_eq!(recs[1].fill.order_link_id, "y");
    assert_eq!(recs[1].fill.exec_fee, 1473267);
}

#[test]
fn replayed_batch_changes_nothing() {
    let e = event("a", vec![fill("e1", "open"), fill("e2", "open"), fill("e1", "open")]);
    let recs = records_for_event(&e, 7);
    let mut log = FillLog::new();
    log.put_all(&recs);
    assert_eq!(log.records.len(), 2);
    log.put_all(&recs);
    assert_eq!(log.records.len(), 2);
    assert_eq!(log.records[0].fill.exec_id, "e1");
    assert_eq!(log.records[1].fill.exec_id, "e2");
    assert!(log.contains_key(&"e2".to_string()));
    assert!(!log.contains_key(&"e3".to_string()));
}

#[test]
fn empty_message_is_malformed() {
    let env = Envelope { user_id: "u".to_string(), stream_id: "s".to_string(), message: "{}".to_string() };
    assert!(matches!(event_from_envelope(env, Vec::new()), Err(EnvelopeError::NoFills)));
}

#[test]
fn replayed_delivery_adds_no_pending_record() {
    let batch = vec![
        Ok(event("a", vec![fill("e1", "open"), fill("e2", "open")])),
        Err(EnvelopeError::Base64),
        Ok(event("b", vec![fill("e3", "TP_1")])),
    ];
    let mut fills = FillLog::new();
    let mut pnls = PnlLog::new();
    let failures = write_batch(&batch, 10, &mut fills, &mut pnls);
    assert_eq!(failures, vec![(1, EnvelopeError::Base64)]);
    assert_eq!(fills.records.len(), 3);
    assert_eq!(pnls.records.len(), 1);
    pnls.records[0].pnl = Some(77);
    let again = write_batch(&batch, 20, &mut fills, &mut pnls);
    assert_eq!(again, vec![(1, EnvelopeError::Base64)]);
    assert_eq!(fills.records.len(), 3);
    assert_eq!(fills.records[0].timestamp, 10);
    assert_eq!(pnls.records.len(), 1);
    assert_eq!(pnls.records[0].pnl, Some(77));
    assert_eq!(pnls.records[0].timestamp, 10);
}
