//! Persisted records: one immutable record per fill, an idempotent fill log
//! keyed by execution id, and PnL records that go from pending to realized once.
use vstd::prelude::*;
use crate::event::OrderEvent;
use crate::fill::Fill;
use crate::pnl::{Reconciliation, reconcile_fills, within_range};

verus! {

/// Exchanges whose executions are recorded.
#[derive(Clone, Copy, Debug, PartialEq, Eq, Structural)]
pub enum Exchange {
    Bybit,
}

/// Why an inbound record could not be turned into an `OrderEvent`.
#[derive(Clone, Copy, Debug, PartialEq, Eq, Structural)]
pub enum EnvelopeError {
    /// The payload is not valid base64.
    Base64,
    /// The decoded payload is not UTF-8 text.
    Utf8,
    /// The text is not the expected JSON shape.
    Json,
    /// The execution message holds no fill.
    NoFills,
}

/// One persisted fill, immutable once written.
#[derive(Debug)]
pub struct OrderStoreRecord {
    pub user_id: String,
    pub stream_id: String,
    pub exchange: Exchange,
    pub fill: Fill,
    /// Time the record was written, in milliseconds since the Unix epoch.
    pub timestamp: u64,
}

impl OrderStoreRecord {
    /// A field-by-field copy.
    pub fn duplicate(&self) -> (r: OrderStoreRecord)
        ensures
            r == *self,
    {
        OrderStoreRecord {
            user_id: self.user_id.clone(),
            stream_id: self.stream_id.clone(),
            exchange: self.exchange,
            fill: self.fill.duplicate(),
            timestamp: self.timestamp,
        }
    }
}

/// The record written for fill `i` of `e` at time `now`.
pub open spec fn record_of(e: OrderEvent, i: int, now: u64) -> OrderStoreRecord {
    OrderStoreRecord {
        user_id: e.user_id,
        stream_id: e.stream_id,
        exchange: Exchange::Bybit,
        fill: e.data@[i],
        timestamp: now,
    }
}

/// The records written for the event `e`: one per fill, in order.
pub open spec fn event_records(e: OrderEvent, now: u64) -> Seq<OrderStoreRecord> {
    Seq::new(e.data@.len(), |i: int| record_of(e, i, now))
}

/// Builds one record per fill of `e`.
pub fn records_for_event(e: &OrderEvent, now: u64) -> (r: Vec<OrderStoreRecord>)
    ensures
        r@ == event_records(*e, now),
{
    let mut out: Vec<OrderStoreRecord> = Vec::new();
    let mut i: usize = 0;
    while i < e.data.len()
        invariant
            i <= e.data@.len(),
            out@ =~= event_records(*e, now).take(i as int),
        decreases e.data@.len() - i,
    {
        let rec = OrderStoreRecord {
            user_id: e.user_id.clone(),
            stream_id: e.stream_id.clone(),
            exchange: Exchange::Bybit,
            fill: e.data[i].duplicate(),
            timestamp: now,
        };
        out.push(rec);
        i = i + 1;
        assert(out@ =~= event_records(*e, now).take(i as int));
    }
    assert(event_records(*e, now).take(i as int) =~= event_records(*e, now));
    out
}

/// The pending PnL record that the opening event `e` starts at time `now`.
pub open spec fn pending_record(e: OrderEvent, now: u64) -> PnlRecord {
    PnlRecord {
        user_id: e.user_id,
        exchange: Exchange::Bybit,
        symbol: e.data@[0].symbol,
        stream_id: e.stream_id,
        timestamp: now,
        opening_exec_id: e.data@[0].exec_id,
        pnl: None,
    }
}

/// A PnL record: pending while `pnl` is `None`, realized once it holds a value.
#[derive(Debug)]
pub struct PnlRecord {
    pub user_id: String,
    pub exchange: Exchange,
    pub symbol: String,
    pub stream_id: String,
    /// Fills at or after this time (milliseconds since the Unix epoch) belong to it.
    pub timestamp: u64,
    /// Execution id of the opening event's first fill; a replayed delivery carries the same one.
    pub opening_exec_id: String,
    /// Realized PnL in units of `1 / (SCALE * SCALE)`; `None` while pending.
    pub pnl: Option<i128>,
}

impl PnlRecord {
    /// A pending record for the position that the opening event `e` starts.
    pub fn pending_for(e: &OrderEvent, now: u64) -> (r: PnlRecord)
        requires
            e.wf(),
        ensures
            r == pending_record(*e, now),
    {
        PnlRecord {
            user_id: e.user_id.clone(),
            exchange: Exchange::Bybit,
            symbol: e.symbol(),
            stream_id: e.stream_id.clone(),
            timestamp: now,
            opening_exec_id: e.data[0].exec_id.clone(),
            pnl: None,
        }
    }

    /// A field-by-field copy.
    pub fn duplicate(&self) -> (r: PnlRecord)
        ensures
            r == *self,
    {
        PnlRecord {
            user_id: self.user_id.clone(),
            exchange: self.exchange,
            symbol: self.symbol.clone(),
            stream_id: self.stream_id.clone(),
            timestamp: self.timestamp,
            opening_exec_id: self.opening_exec_id.clone(),
            pnl: self.pnl,
        }
    }

    pub fn is_realized(&self) -> (r: bool)
        ensures
            r == self.pnl.is_some(),
    {
        self.pnl.is_some()
    }

    /// Applies a reconciliation outcome: a pending record becomes realized on
    /// `Realized`; a realized record never changes.
    pub fn apply(&mut self, outcome: Reconciliation)
        ensures
            old(self).pnl.is_some() ==> *final(self) == *old(self),
            old(self).pnl.is_none() ==> match outcome {
                Reconciliation::Realized(v) => *final(self) == (PnlRecord { pnl: Some(v), ..*old(self) }),
                _ => *final(self) == *old(self),
            },
    {
        if self.pnl.is_none() {
            if let Reconciliation::Realized(v) = outcome {
                self.pnl = Some(v);
            }
        }
    }

    /// Reconciles this record against the fills of `records` (those stored
    /// for its stream and symbol from its timestamp on) and applies the outcome.
    pub fn reconcile(&mut self, records: &Vec<OrderStoreRecord>, lot_step: Option<u64>) -> (r: Reconciliation)
        requires
            within_range(fills_of(records@)),
        ensures
            r == crate::pnl::reconcile_spec(fills_of(records@), lot_step),
            old(self).pnl.is_some() ==> *final(self) == *old(self),
            old(self).pnl.is_none() ==> match r {
                Reconciliation::Realized(v) => *final(self) == (PnlRecord { pnl: Some(v), ..*old(self) }),
                _ => *final(self) == *old(self),
            },
    {
        let fills = collect_fills(records);
        let outcome = reconcile_fills(&fills, lot_step);
        self.apply(outcome);
        outcome
    }
}

/// The fills that `records` hold, in order.
pub open spec fn fills_of(records: Seq<OrderStoreRecord>) -> Seq<Fill> {
    records.map_values(|r: OrderStoreRecord| r.fill)
}

/// Copies out the fills that `records` hold.
pub fn collect_fills(records: &Vec<OrderStoreRecord>) -> (r: Vec<Fill>)
    ensures
        r@ == fills_of(records@),
{
    let mut out: Vec<Fill> = Vec::new();
    let mut i: usize = 0;
    while i < records.len()
        invariant
            i <= records@.len(),
            out@ =~= fills_of(records@).take(i as int),
        decreases records@.len() - i,
    {
        out.push(records[i].fill.duplicate());
        i = i + 1;
        assert(out@ =~= fills_of(records@).take(i as int));
    }
    assert(fills_of(records@).take(i as int) =~= fills_of(records@));
    out
}

} // verus!
