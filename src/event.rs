//! A normalized inbound batch of fills and its classification.
use vstd::prelude::*;
use crate::fill::{Amount, Fill, amount_fn, is_opening_tag, opening_tag, sum_amount, sum_by};

verus! {

/// One inbound message: the user and stream it came from, and its fills in wire order.
pub struct OrderEvent {
    pub user_id: String,
    pub stream_id: String,
    pub data: Vec<Fill>,
}

impl OrderEvent {
    /// A batch carries at least one fill.
    pub open spec fn wf(&self) -> bool {
        self.data@.len() > 0
    }

    /// Classification by the first fill's link/tag id alone.
    pub open spec fn spec_is_open(&self) -> bool {
        is_opening_tag(self.data@[0].order_link_id@)
    }

    pub fn new(user_id: String, stream_id: String, data: Vec<Fill>) -> (r: OrderEvent)
        requires
            data@.len() > 0,
        ensures
            r.wf(),
            r.user_id == user_id,
            r.stream_id == stream_id,
            r.data == data,
    {
        OrderEvent { user_id, stream_id, data }
    }

    /// Symbol of the first fill.
    pub fn symbol(&self) -> (r: String)
        requires
            self.wf(),
        ensures
            r == self.data@[0].symbol,
    {
        self.data[0].symbol.clone()
    }

    /// Sum of the fees of all fills.
    pub fn fees(&self) -> (r: u128)
        ensures
            r as int == sum_by(self.data@, amount_fn(Amount::Fee)),
    {
        sum_amount(&self.data, Amount::Fee)
    }

    /// Unweighted arithmetic mean of the fills' prices, rounded down to a fixed-point unit.
    pub fn price(&self) -> (r: u128)
        requires
            self.wf(),
        ensures
            r as int == sum_by(self.data@, amount_fn(Amount::Price)) / (self.data@.len() as int),
    {
        let total = sum_amount(&self.data, Amount::Price);
        total / (self.data.len() as u128)
    }

    /// Sum of the executed quantities of all fills.
    pub fn quantity(&self) -> (r: u128)
        ensures
            r as int == sum_by(self.data@, amount_fn(Amount::ExecQty)),
    {
        sum_amount(&self.data, Amount::ExecQty)
    }

    /// Opening event: the first fill's link/tag id is non-empty and not `TP_`-tagged.
    pub fn is_open(&self) -> (r: bool)
        requires
            self.wf(),
        ensures
            r == self.spec_is_open(),
    {
        opening_tag(&self.data[0].order_link_id)
    }

    /// Closing event: every event that is not an opening one.
    pub fn is_close(&self) -> (r: bool)
        requires
            self.wf(),
        ensures
            r == !self.spec_is_open(),
    {
        !self.is_open()
    }
}

} // verus!
