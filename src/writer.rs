//! The order store writer: turns a delivered batch into records, isolating
//! malformed entries, and an append-only fill log that ignores replays.
use vstd::prelude::*;
use crate::event::OrderEvent;
use crate::store::{EnvelopeError, OrderStoreRecord, PnlRecord, event_records, pending_record, record_of, records_for_event};

verus! {

/// Every entry of a batch that decoded is a well-formed event.
pub open spec fn batch_wf(batch: Seq<Result<OrderEvent, EnvelopeError>>) -> bool {
    forall|i: int| 0 <= i < batch.len() && #[trigger] batch[i].is_ok() ==> batch[i]->Ok_0.wf()
}

/// Number of fills over the decoded entries of a batch.
pub open spec fn total_fills(batch: Seq<Result<OrderEvent, EnvelopeError>>) -> int
    decreases batch.len(),
{
    if batch.len() == 0 {
        0
    } else {
        total_fills(batch.drop_last()) + match batch.last() {
            Ok(e) => e.data@.len() as int,
            Err(_) => 0,
        }
    }
}

/// Records written for a batch at time `now`: those of each decoded entry, in order.
pub open spec fn batch_records(batch: Seq<Result<OrderEvent, EnvelopeError>>, now: u64) -> Seq<OrderStoreRecord>
    decreases batch.len(),
{
    if batch.len() == 0 {
        Seq::empty()
    } else {
        batch_records(batch.drop_last(), now) + match batch.last() {
            Ok(e) => event_records(e, now),
            Err(_) => Seq::empty(),
        }
    }
}

/// Positions of the entries that failed to decode, with their errors.
pub open spec fn batch_failures(batch: Seq<Result<OrderEvent, EnvelopeError>>) -> Seq<(usize, EnvelopeError)>
    decreases batch.len(),
{
    if batch.len() == 0 {
        Seq::empty()
    } else {
        batch_failures(batch.drop_last()) + match batch.last() {
            Ok(_) => Seq::empty(),
            Err(err) => seq![((batch.len() - 1) as usize, err)],
        }
    }
}

/// The pending PnL records that the opening events among the decoded entries start.
pub open spec fn batch_pending(batch: Seq<Result<OrderEvent, EnvelopeError>>, now: u64) -> Seq<PnlRecord>
    decreases batch.len(),
{
    if batch.len() == 0 {
        Seq::empty()
    } else {
        batch_pending(batch.drop_last(), now) + match batch.last() {
            Ok(e) => if e.spec_is_open() { seq![pending_record(e, now)] } else { Seq::empty() },
            Err(_) => Seq::empty(),
        }
    }
}

/// What the writer produces for one delivered batch.
pub struct BatchReport {
    /// One record per fill of every decoded entry.
    pub records: Vec<OrderStoreRecord>,
    /// A pending PnL record for every opening event.
    pub pending: Vec<PnlRecord>,
    /// Each entry that failed to decode, by position.
    pub failures: Vec<(usize, EnvelopeError)>,
}

/// Processes a delivered batch: every decoded entry yields its records (and a
/// pending PnL record when it opens a position); a malformed entry is reported
/// by position and does not stop its siblings.
pub fn process_batch(batch: &Vec<Result<OrderEvent, EnvelopeError>>, now: u64) -> (r: BatchReport)
    requires
        batch_wf(batch@),
    ensures
        r.records@ == batch_records(batch@, now),
        r.failures@ == batch_failures(batch@),
        r.pending@ == batch_pending(batch@, now),
{
    let mut records: Vec<OrderStoreRecord> = Vec::new();
    let mut pending: Vec<PnlRecord> = Vec::new();
    let mut failures: Vec<(usize, EnvelopeError)> = Vec::new();
    let mut i: usize = 0;
    while i < batch.len()
        invariant
            i <= batch@.len(),
            batch_wf(batch@),
            records@ == batch_records(batch@.take(i as int), now),
            failures@ == batch_failures(batch@.take(i as int)),
            pending@ == batch_pending(batch@.take(i as int), now),
        decreases batch@.len() - i,
    {
        proof {
            assert(batch@.take(i + 1).drop_last() =~= batch@.take(i as int));
            assert(batch@.take(i + 1).last() == batch@[i as int]);
        }
        match &batch[i] {
            Ok(e) => {
                assert(batch@[i as int].is_ok());
                let recs = records_for_event(e, now);
                let mut k: usize = 0;
                let ghost before = records@;
                while k < recs.len()
                    invariant
                        k <= recs@.len(),
                        records@ =~= before + recs@.take(k as int),
                    decreases recs@.len() - k,
                {
                    records.push(recs[k].duplicate());
                    k = k + 1;
                    assert(records@ =~= before + recs@.take(k as int));
                }
                assert(recs@.take(k as int) =~= recs@);
                if e.is_open() {
                    pending.push(PnlRecord::pending_for(e, now));
                }
                assert(pending@ =~= batch_pending(batch@.take(i + 1), now));
            },
            Err(err) => {
                failures.push((i, *err));
                assert(failures@ =~= batch_failures(batch@.take(i + 1)));
            },
        }
        i = i + 1;
    }
    proof {
        assert(batch@.take(i as int) =~= batch@);
    }
    BatchReport { records, pending, failures }
}

/// A well-formed batch yields exactly one record per delivered fill.
pub proof fn lemma_one_record_per_fill(batch: Seq<Result<OrderEvent, EnvelopeError>>, now: u64)
    ensures
        batch_records(batch, now).len() == total_fills(batch),
    decreases batch.len(),
{
    if batch.len() > 0 {
        lemma_one_record_per_fill(batch.drop_last(), now);
    }
}

/// A record that a log holds at most once per key.
pub trait Keyed: Sized {
    /// The key that identifies the record across deliveries.
    spec fn log_key(&self) -> Seq<char>;

    fn has_key(&self, id: &String) -> (r: bool)
        ensures
            r == (self.log_key() == id@);

    fn same_key(&self, other: &Self) -> (r: bool)
        ensures
            r == (self.log_key() == other.log_key());

    fn copy_entry(&self) -> (r: Self)
        ensures
            r == *self;
}

impl Keyed for OrderStoreRecord {
    /// A fill record is keyed by its execution id.
    open spec fn log_key(&self) -> Seq<char> {
        self.fill.exec_id@
    }

    fn has_key(&self, id: &String) -> (r: bool) {
        self.fill.exec_id == *id
    }

    fn same_key(&self, other: &Self) -> (r: bool) {
        self.fill.exec_id == other.fill.exec_id
    }

    fn copy_entry(&self) -> (r: Self) {
        self.duplicate()
    }
}

impl Keyed for PnlRecord {
    /// A PnL record is keyed by the execution id of its opening event's first fill.
    open spec fn log_key(&self) -> Seq<char> {
        self.opening_exec_id@
    }

    fn has_key(&self, id: &String) -> (r: bool) {
        self.opening_exec_id == *id
    }

    fn same_key(&self, other: &Self) -> (r: bool) {
        self.opening_exec_id == other.opening_exec_id
    }

    fn copy_entry(&self) -> (r: Self) {
        self.duplicate()
    }
}

/// Some record in `log` has key `id`.
pub open spec fn has_key<T: Keyed>(log: Seq<T>, id: Seq<char>) -> bool {
    exists|i: int| 0 <= i < log.len() && (#[trigger] log[i]).log_key() == id
}

/// `log` after putting `r`: unchanged when its key is already there.
pub open spec fn put_spec<T: Keyed>(log: Seq<T>, r: T) -> Seq<T> {
    if has_key(log, r.log_key()) {
        log
    } else {
        log.push(r)
    }
}

/// `log` after putting each record of `batch` in order.
pub open spec fn put_all_spec<T: Keyed>(log: Seq<T>, batch: Seq<T>) -> Seq<T>
    decreases batch.len(),
{
    if batch.len() == 0 {
        log
    } else {
        put_spec(put_all_spec(log, batch.drop_last()), batch.last())
    }
}

/// An append-only log that holds each key once; a record whose key is
/// already there is not written again.
pub struct KeyedLog<T> {
    pub records: Vec<T>,
}

/// Persisted fill records, keyed by execution id.
pub type FillLog = KeyedLog<OrderStoreRecord>;

/// PnL records, keyed by the opening fill's execution id.
pub type PnlLog = KeyedLog<PnlRecord>;

impl<T: Keyed> KeyedLog<T> {
    pub open spec fn view(&self) -> Seq<T> {
        self.records@
    }

    pub fn new() -> (r: KeyedLog<T>)
        ensures
            r@ == Seq::<T>::empty(),
    {
        KeyedLog { records: Vec::new() }
    }

    /// Whether a record with key `id` is in the log.
    pub fn contains_key(&self, id: &String) -> (r: bool)
        ensures
            r == has_key(self@, id@),
    {
        let mut i: usize = 0;
        while i < self.records.len()
            invariant
                i <= self.records@.len(),
                forall|j: int| 0 <= j < i ==> (#[trigger] self.records@[j]).log_key() != id@,
            decreases self.records@.len() - i,
        {
            if self.records[i].has_key(id) {
                return true;
            }
            i = i + 1;
        }
        false
    }

    /// Appends `r` unless a record with its key is already there.
    pub fn put(&mut self, r: T)
        ensures
            final(self)@ == put_spec(old(self)@, r),
    {
        if !self.contains_key_of(&r) {
            self.records.push(r);
        }
    }

    /// Puts every record of `batch`, in order.
    pub fn put_all(&mut self, batch: &Vec<T>)
        ensures
            final(self)@ == put_all_spec(old(self)@, batch@),
    {
        let ghost start = self@;
        let mut i: usize = 0;
        while i < batch.len()
            invariant
                i <= batch@.len(),
                self@ == put_all_spec(start, batch@.take(i as int)),
            decreases batch@.len() - i,
        {
            proof {
                assert(batch@.take(i + 1).drop_last() =~= batch@.take(i as int));
            }
            self.put(batch[i].copy_entry());
            i = i + 1;
        }
        assert(batch@.take(i as int) =~= batch@);
    }

    /// Whether a record with the key of `r` is in the log.
    fn contains_key_of(&self, r: &T) -> (found: bool)
        ensures
            found == has_key(self@, r.log_key()),
    {
        let mut i: usize = 0;
        while i < self.records.len()
            invariant
                i <= self.records@.len(),
                forall|j: int| 0 <= j < i ==> (#[trigger] self.records@[j]).log_key() != r.log_key(),
            decreases self.records@.len() - i,
        {
            if self.records[i].same_key(r) {
                return true;
            }
            i = i + 1;
        }
        false
    }
}

proof fn lemma_put_keeps<T: Keyed>(log: Seq<T>, r: T, id: Seq<char>)
    requires
        has_key(log, id),
    ensures
        has_key(put_spec(log, r), id),
{
    if !has_key(log, r.log_key()) {
        let i = choose|i: int| 0 <= i < log.len() && (#[trigger] log[i]).log_key() == id;
        assert(log.push(r)[i] == log[i]);
    }
}

proof fn lemma_put_all_present<T: Keyed>(log: Seq<T>, batch: Seq<T>, j: int)
    requires
        0 <= j < batch.len(),
    ensures
        has_key(put_all_spec(log, batch), batch[j].log_key()),
    decreases batch.len(),
{
    let prev = put_all_spec(log, batch.drop_last());
    if j == batch.len() - 1 {
        if !has_key(prev, batch.last().log_key()) {
            assert(prev.push(batch.last())[prev.len() as int] == batch.last());
        }
    } else {
        lemma_put_all_present(log, batch.drop_last(), j);
        lemma_put_keeps(prev, batch.last(), batch[j].log_key());
    }
}

proof fn lemma_put_all_noop<T: Keyed>(log: Seq<T>, batch: Seq<T>)
    requires
        forall|j: int| 0 <= j < batch.len() ==> has_key(log, (#[trigger] batch[j]).log_key()),
    ensures
        put_all_spec(log, batch) == log,
    decreases batch.len(),
{
    if batch.len() > 0 {
        assert forall|j: int| 0 <= j < batch.drop_last().len() implies has_key(log, (#[trigger] batch.drop_last()[j]).log_key()) by {
            assert(batch.drop_last()[j] == batch[j]);
        }
        lemma_put_all_noop(log, batch.drop_last());
        assert(has_key(log, batch[batch.len() - 1].log_key()));
    }
}

/// `a` and `b` hold records with the same keys, position by position.
pub open spec fn same_keys<T: Keyed>(a: Seq<T>, b: Seq<T>) -> bool {
    a.len() == b.len() && forall|j: int| 0 <= j < a.len() ==> (#[trigger] a[j]).log_key() == b[j].log_key()
}

/// Putting again records whose keys the first put already brought leaves the
/// log as the first put left it: records already there, realized PnL records
/// included, are neither replaced nor duplicated.
pub proof fn lemma_replay_idempotent<T: Keyed>(log: Seq<T>, first: Seq<T>, again: Seq<T>)
    requires
        same_keys(first, again),
    ensures
        put_all_spec(put_all_spec(log, first), again) == put_all_spec(log, first),
{
    let once = put_all_spec(log, first);
    assert forall|j: int| 0 <= j < again.len() implies has_key(once, (#[trigger] again[j]).log_key()) by {
        lemma_put_all_present(log, first, j);
    }
    lemma_put_all_noop(once, again);
}

/// Writes a delivered batch: its fill records into `fills` and the pending PnL
/// records of its opening events into `pnls`, skipping keys already there.
/// Returns the entries that failed to decode, by position.
pub fn write_batch(
    batch: &Vec<Result<OrderEvent, EnvelopeError>>,
    now: u64,
    fills: &mut FillLog,
    pnls: &mut PnlLog,
) -> (r: Vec<(usize, EnvelopeError)>)
    requires
        batch_wf(batch@),
    ensures
        final(fills)@ == put_all_spec(old(fills)@, batch_records(batch@, now)),
        final(pnls)@ == put_all_spec(old(pnls)@, batch_pending(batch@, now)),
        r@ == batch_failures(batch@),
{
    let report = process_batch(batch, now);
    fills.put_all(&report.records);
    pnls.put_all(&report.pending);
    report.failures
}

proof fn lemma_batch_keys(batch: Seq<Result<OrderEvent, EnvelopeError>>, t1: u64, t2: u64)
    ensures
        same_keys(batch_records(batch, t1), batch_records(batch, t2)),
        same_keys(batch_pending(batch, t1), batch_pending(batch, t2)),
    decreases batch.len(),
{
    if batch.len() > 0 {
        lemma_batch_keys(batch.drop_last(), t1, t2);
        let a = batch_records(batch, t1);
        let b = batch_records(batch, t2);
        let pa = batch_records(batch.drop_last(), t1);
        assert forall|j: int| 0 <= j < a.len() implies (#[trigger] a[j]).log_key() == b[j].log_key() by {
            if j >= pa.len() {
                if let Ok(e) = batch.last() {
                    assert(a[j] == record_of(e, j - pa.len(), t1));
                    assert(b[j] == record_of(e, j - pa.len(), t2));
                }
            }
        }
        let c = batch_pending(batch, t1);
        let d = batch_pending(batch, t2);
        let pc = batch_pending(batch.drop_last(), t1);
        assert forall|j: int| 0 <= j < c.len() implies (#[trigger] c[j]).log_key() == d[j].log_key() by {
            if j >= pc.len() {
                if let Ok(e) = batch.last() {
                    assert(c[j] == pending_record(e, t1));
                    assert(d[j] == pending_record(e, t2));
                }
            }
        }
    }
}

/// Delivering the same batch again, at any later time, changes neither the
/// persisted fills nor the PnL records: a realized record stays as it was.
pub proof fn lemma_batch_replay(
    batch: Seq<Result<OrderEvent, EnvelopeError>>,
    t1: u64,
    t2: u64,
    fills: Seq<OrderStoreRecord>,
    pnls: Seq<PnlRecord>,
)
    ensures
        put_all_spec(put_all_spec(fills, batch_records(batch, t1)), batch_records(batch, t2))
            == put_all_spec(fills, batch_records(batch, t1)),
        put_all_spec(put_all_spec(pnls, batch_pending(batch, t1)), batch_pending(batch, t2))
            == put_all_spec(pnls, batch_pending(batch, t1)),
{
    lemma_batch_keys(batch, t1, t2);
    lemma_replay_idempotent(fills, batch_records(batch, t1), batch_records(batch, t2));
    lemma_replay_idempotent(pnls, batch_pending(batch, t1), batch_pending(batch, t2));
}

} // verus!
