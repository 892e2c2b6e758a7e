//! Realized profit-and-loss from the fills of one (stream, symbol) key.
//!
//! Quantities and prices are fixed-point in units of `1 / SCALE`, so
//! quantity sums are exact and need no rounding before the tolerance
//! comparison. A collateral (quantity times price) and the resulting PnL
//! are in units of `1 / (SCALE * SCALE)`.
use vstd::prelude::*;
use crate::event::OrderEvent;
use crate::fill::{Amount, Fill, SCALE, Side, amount_fn, lemma_sum_by_full, lemma_sum_by_le, lemma_sum_by_prefix, lemma_sum_by_step, sum_amount, sum_by};

verus! {

pub open spec fn qty_term(x: Fill) -> int {
    x.exec_qty as int
}

pub open spec fn notional_term(x: Fill) -> int {
    x.exec_qty as int * x.price as int
}

pub open spec fn scaled_fee_term(x: Fill) -> int {
    x.exec_fee as int * SCALE as int
}

/// Every amount that the reconciliation adds up for one fill.
pub open spec fn gross_term(x: Fill) -> int {
    notional_term(x) + x.price as int * x.leaves_qty as int + scaled_fee_term(x)
}

/// `f` restricted to opening fills (`opening`) or to closing fills (`!opening`).
pub open spec fn on_side(opening: bool, f: spec_fn(Fill) -> int) -> spec_fn(Fill) -> int {
    |x: Fill| if x.spec_is_opening() == opening { f(x) } else { 0 }
}

/// The reconciliation's exact intermediate values fit comfortably in `i128`.
pub open spec fn within_range(s: Seq<Fill>) -> bool {
    4 * sum_by(s, |x: Fill| gross_term(x)) <= i128::MAX as int
}

/// Index of the first opening fill, or -1.
pub open spec fn first_opening(s: Seq<Fill>) -> int
    decreases s.len(),
{
    if s.len() == 0 {
        -1
    } else {
        let j = first_opening(s.drop_last());
        if j >= 0 {
            j
        } else if s.last().spec_is_opening() {
            s.len() - 1
        } else {
            -1
        }
    }
}

/// Index of the closing fill that comes last when closing fills are sorted
/// stably by trade time (the latest one, the later in sequence among equals), or -1.
pub open spec fn last_closing(s: Seq<Fill>) -> int
    decreases s.len(),
{
    if s.len() == 0 {
        -1
    } else {
        let j = last_closing(s.drop_last());
        if !s.last().spec_is_opening() && (j < 0 || s[j].trade_time <= s.last().trade_time) {
            s.len() - 1
        } else {
            j
        }
    }
}

/// Outcome of reconciling one pending PnL record.
#[derive(Clone, Copy, Debug, PartialEq, Eq, Structural)]
pub enum Reconciliation {
    /// No closing fill yet: the record stays pending.
    Pending,
    /// Closing fills exist but no opening fill was found.
    MissingOpening,
    /// Realized PnL, in units of `1 / (SCALE * SCALE)`.
    Realized(i128),
}

/// `|close_qty - open_qty|` strictly exceeds the lot-size step.
pub open spec fn beyond_tolerance(s: Seq<Fill>, step: int) -> bool {
    let d = sum_by(s, on_side(false, |x: Fill| qty_term(x))) - sum_by(s, on_side(true, |x: Fill| qty_term(x)));
    (if d >= 0 { d } else { -d }) > step
}

/// Realized PnL of `s` when the first opening fill is at `fo` and the last closing fill at `lc`.
pub open spec fn pnl_value(s: Seq<Fill>, step: int, fo: int, lc: int) -> int {
    let initial_collateral = sum_by(s, on_side(true, |x: Fill| notional_term(x)));
    let initial_fees = sum_by(s, on_side(true, |x: Fill| scaled_fee_term(x)));
    let closed_collateral = sum_by(s, on_side(false, |x: Fill| notional_term(x)));
    let final_fees = sum_by(s, on_side(false, |x: Fill| scaled_fee_term(x)));
    let final_collateral = if beyond_tolerance(s, step) {
        closed_collateral + s[lc].price as int * s[lc].leaves_qty as int
    } else {
        closed_collateral
    };
    if s[fo].side == Side::Buy {
        final_collateral - initial_collateral - initial_fees - final_fees
    } else {
        initial_collateral - final_collateral - initial_fees - final_fees
    }
}

/// The lot-size step in force: the instrument's, or 0 (exact equality) when unknown.
pub open spec fn step_of(lot_step: Option<u64>) -> int {
    match lot_step {
        Some(v) => v as int,
        None => 0,
    }
}

/// What reconciling the fills `s` yields.
pub open spec fn reconcile_spec(s: Seq<Fill>, lot_step: Option<u64>) -> Reconciliation {
    if last_closing(s) < 0 {
        Reconciliation::Pending
    } else if first_opening(s) < 0 {
        Reconciliation::MissingOpening
    } else {
        Reconciliation::Realized(
            pnl_value(s, step_of(lot_step), first_opening(s), last_closing(s)) as i128,
        )
    }
}

proof fn lemma_first_opening_step(s: Seq<Fill>, i: int)
    requires
        0 <= i < s.len(),
    ensures
        first_opening(s.take(i + 1)) == (if first_opening(s.take(i)) >= 0 {
            first_opening(s.take(i))
        } else if s[i].spec_is_opening() {
            i
        } else {
            -1
        }),
{
    assert(s.take(i + 1).drop_last() =~= s.take(i));
}

proof fn lemma_first_opening_range(s: Seq<Fill>)
    ensures
        -1 <= first_opening(s) < s.len(),
        first_opening(s) >= 0 ==> s[first_opening(s)].spec_is_opening(),
    decreases s.len(),
{
    if s.len() > 0 {
        lemma_first_opening_range(s.drop_last());
    }
}

proof fn lemma_last_closing_range(s: Seq<Fill>)
    ensures
        -1 <= last_closing(s) < s.len(),
        last_closing(s) >= 0 ==> !s[last_closing(s)].spec_is_opening(),
    decreases s.len(),
{
    if s.len() > 0 {
        lemma_last_closing_range(s.drop_last());
    }
}

/// One term is at most the whole sum of a non-negative function.
proof fn lemma_term_le_sum(s: Seq<Fill>, f: spec_fn(Fill) -> int, j: int)
    requires
        0 <= j < s.len(),
        forall|x: Fill| 0 <= #[trigger] f(x),
    ensures
        f(s[j]) <= sum_by(s, f),
    decreases s.len(),
{
    lemma_sum_by_le(s.drop_last(), f, f);
    if j < s.len() - 1 {
        lemma_term_le_sum(s.drop_last(), f, j);
    }
}

proof fn lemma_gross_nonneg()
    ensures
        forall|x: Fill| 0 <= #[trigger] gross_term(x),
{
    assert forall|x: Fill| 0 <= #[trigger] gross_term(x) by {
        lemma_term_nonneg(x);
    }
}

proof fn lemma_term_nonneg(x: Fill)
    ensures
        0 <= notional_term(x) <= gross_term(x),
        0 <= scaled_fee_term(x) <= gross_term(x),
        0 <= x.price as int * x.leaves_qty as int <= gross_term(x),
{
    assert(0 <= x.exec_qty as int * x.price as int) by (nonlinear_arith);
    assert(0 <= x.price as int * x.leaves_qty as int) by (nonlinear_arith);
}

/// Sum of the executed quantities on one side; it cannot overflow `u128`.
fn side_qty(fills: &Vec<Fill>, opening: bool) -> (r: u128)
    ensures
        r as int == sum_by(fills@, on_side(opening, |x: Fill| qty_term(x))),
{
    let f = Ghost(on_side(opening, |x: Fill| qty_term(x)));
    let mut acc: u128 = 0;
    let mut i: usize = 0;
    while i < fills.len()
        invariant
            i <= fills.len(),
            f@ == on_side(opening, |x: Fill| qty_term(x)),
            acc as int == sum_by(fills@.take(i as int), f@),
            acc as int <= i * (u64::MAX as int),
        decreases fills.len() - i,
    {
        proof {
            lemma_sum_by_step(fills@, f@, i as int);
            assert((i + 1) * (u64::MAX as int) == i * (u64::MAX as int) + u64::MAX as int) by (nonlinear_arith);
            assert((i + 1) * (u64::MAX as int) < u128::MAX) by (nonlinear_arith)
                requires i < usize::MAX;
        }
        if fills[i].is_opening() == opening {
            acc = acc + fills[i].exec_qty as u128;
        }
        i = i + 1;
    }
    proof {
        lemma_sum_by_full(fills@, f@);
    }
    acc
}

/// Which amount `side_value` adds up.
#[derive(Clone, Copy, Debug, PartialEq, Eq, Structural)]
enum ValueKind {
    Notional,
    ScaledFee,
}

spec fn value_fn(k: ValueKind) -> spec_fn(Fill) -> int {
    match k {
        ValueKind::Notional => |x: Fill| notional_term(x),
        ValueKind::ScaledFee => |x: Fill| scaled_fee_term(x),
    }
}

/// Sum of a notional or of a scaled fee over one side.
fn side_value(fills: &Vec<Fill>, opening: bool, k: ValueKind) -> (r: i128)
    requires
        within_range(fills@),
    ensures
        r as int == sum_by(fills@, on_side(opening, value_fn(k))),
        0 <= r as int <= sum_by(fills@, |x: Fill| gross_term(x)),
{
    let f = Ghost(on_side(opening, value_fn(k)));
    let g = Ghost(|x: Fill| gross_term(x));
    proof {
        assert forall|x: Fill| 0 <= #[trigger] f@(x) <= g@(x) by {
            lemma_term_nonneg(x);
        }
        lemma_gross_nonneg();
    }
    let mut acc: i128 = 0;
    let mut i: usize = 0;
    while i < fills.len()
        invariant
            i <= fills.len(),
            f@ == on_side(opening, value_fn(k)),
            g@ == (|x: Fill| gross_term(x)),
            forall|x: Fill| 0 <= #[trigger] f@(x) <= g@(x),
            forall|x: Fill| 0 <= #[trigger] g@(x),
            within_range(fills@),
            acc as int == sum_by(fills@.take(i as int), f@),
        decreases fills.len() - i,
    {
        proof {
            lemma_sum_by_step(fills@, f@, i as int);
            lemma_sum_by_le(fills@.take(i + 1), f@, g@);
            lemma_sum_by_prefix(fills@, g@, i + 1);
            lemma_term_le_sum(fills@, g@, i as int);
            lemma_term_nonneg(fills@[i as int]);
        }
        let x = &fills[i];
        if x.is_opening() == opening {
            let v: i128 = match k {
                ValueKind::Notional => x.exec_qty as i128 * x.price as i128,
                ValueKind::ScaledFee => x.exec_fee as i128 * SCALE as i128,
            };
            acc = acc + v;
        }
        i = i + 1;
    }
    proof {
        lemma_sum_by_full(fills@, f@);
        lemma_sum_by_le(fills@, f@, g@);
    }
    acc
}

/// Index of the first opening fill, if any.
fn find_first_opening(fills: &Vec<Fill>) -> (r: Option<usize>)
    ensures
        match r {
            Some(j) => j as int == first_opening(fills@),
            None => first_opening(fills@) < 0,
        },
{
    let mut i: usize = 0;
    while i < fills.len()
        invariant
            i <= fills.len(),
            first_opening(fills@.take(i as int)) < 0,
        decreases fills.len() - i,
    {
        proof {
            lemma_first_opening_step(fills@, i as int);
        }
        if fills[i].is_opening() {
            proof {
                assert(fills@.take(i + 1) =~= fills@.take(fills@.len() as int).take(i + 1));
                lemma_first_opening_prefix(fills@, i + 1);
            }
            return Some(i);
        }
        i = i + 1;
    }
    proof {
        assert(fills@.take(i as int) =~= fills@);
    }
    None
}

/// Once a prefix holds an opening fill, longer prefixes keep the same first one.
proof fn lemma_first_opening_prefix(s: Seq<Fill>, i: int)
    requires
        0 <= i <= s.len(),
        first_opening(s.take(i)) >= 0,
    ensures
        first_opening(s) == first_opening(s.take(i)),
    decreases s.len() - i,
{
    if i < s.len() {
        lemma_first_opening_step(s, i);
        lemma_first_opening_prefix(s, i + 1);
    } else {
        assert(s.take(i) =~= s);
    }
}

/// Index of the last closing fill in trade-time order, if any.
fn find_last_closing(fills: &Vec<Fill>) -> (r: Option<usize>)
    ensures
        match r {
            Some(j) => j as int == last_closing(fills@),
            None => last_closing(fills@) < 0,
        },
{
    let mut best: Option<usize> = None;
    let mut i: usize = 0;
    while i < fills.len()
        invariant
            i <= fills.len(),
            match best {
                Some(j) => j < i && j as int == last_closing(fills@.take(i as int)),
                None => last_closing(fills@.take(i as int)) < 0,
            },
        decreases fills.len() - i,
    {
        proof {
            assert(fills@.take(i + 1).drop_last() =~= fills@.take(i as int));
            if let Some(j) = best {
                assert(fills@.take(i as int)[j as int] == fills@[j as int]);
                assert(fills@.take(i + 1)[j as int] == fills@[j as int]);
            }
        }
        if !fills[i].is_opening() {
            match best {
                None => {
                    best = Some(i);
                },
                Some(j) => {
                    if fills[j].trade_time <= fills[i].trade_time {
                        best = Some(i);
                    }
                },
            }
        }
        i = i + 1;
    }
    proof {
        assert(fills@.take(i as int) =~= fills@);
    }
    best
}

/// Reconciles the fills gathered for one pending record.
///
/// Pending while no closing fill exists; `MissingOpening` when closing fills
/// exist but no opening one; otherwise the realized PnL. When
/// `|close_qty - open_qty|` strictly exceeds the lot step (0 when unknown),
/// the last closing fill's `price * leaves_qty` is added to the final
/// collateral. The first opening fill's side sets the sign: `Buy` is long.
pub fn reconcile_fills(fills: &Vec<Fill>, lot_step: Option<u64>) -> (r: Reconciliation)
    requires
        within_range(fills@),
    ensures
        r == reconcile_spec(fills@, lot_step),
{
    let lc = find_last_closing(fills);
    let fo = find_first_opening(fills);
    proof {
        lemma_first_opening_range(fills@);
        lemma_last_closing_range(fills@);
    }
    match lc {
        None => Reconciliation::Pending,
        Some(l) => match fo {
            None => Reconciliation::MissingOpening,
            Some(o) => {
                let open_qty = side_qty(fills, true);
                let close_qty = side_qty(fills, false);
                let step: u128 = match lot_step {
                    Some(v) => v as u128,
                    None => 0,
                };
                let beyond = if close_qty >= open_qty {
                    close_qty - open_qty > step
                } else {
                    open_qty - close_qty > step
                };
                let initial_collateral = side_value(fills, true, ValueKind::Notional);
                let initial_fees = side_value(fills, true, ValueKind::ScaledFee);
                let closed_collateral = side_value(fills, false, ValueKind::Notional);
                let final_fees = side_value(fills, false, ValueKind::ScaledFee);
                proof {
                    lemma_gross_nonneg();
                    lemma_term_le_sum(fills@, |x: Fill| gross_term(x), l as int);
                    lemma_term_nonneg(fills@[l as int]);
                    assert(value_fn(ValueKind::Notional) == (|x: Fill| notional_term(x)));
                    assert(value_fn(ValueKind::ScaledFee) == (|x: Fill| scaled_fee_term(x)));
                }
                let final_collateral = if beyond {
                    closed_collateral + fills[l].price as i128 * fills[l].leaves_qty as i128
                } else {
                    closed_collateral
                };
                let v = if fills[o].side == Side::Buy {
                    final_collateral - initial_collateral - initial_fees - final_fees
                } else {
                    initial_collateral - final_collateral - initial_fees - final_fees
                };
                Reconciliation::Realized(v)
            },
        },
    }
}

/// Strategy tag of a position, by the side of its opening.
#[derive(Clone, Copy, Debug, PartialEq, Eq, Structural)]
pub enum Strategy {
    LongTonic,
    ShortColada,
}

/// Unweighted mean price of `s`, rounded down to a fixed-point unit.
pub open spec fn mean_price(s: Seq<Fill>) -> int {
    sum_by(s, amount_fn(Amount::Price)) / (s.len() as int)
}

/// Collateral of a batch valued at its mean price: `mean_price * executed quantity`.
pub open spec fn mean_collateral(s: Seq<Fill>) -> int {
    mean_price(s) * sum_by(s, amount_fn(Amount::ExecQty))
}

/// Both fee sums, in units of `1 / (SCALE * SCALE)`.
pub open spec fn scaled_fees(opening: Seq<Fill>, closing: Seq<Fill>) -> int {
    (sum_by(opening, amount_fn(Amount::Fee)) + sum_by(closing, amount_fn(Amount::Fee))) * SCALE as int
}

/// The per-close estimate's intermediate values fit comfortably in `i128`.
pub open spec fn estimate_within_range(opening: Seq<Fill>, closing: Seq<Fill>) -> bool {
    &&& 4 * mean_collateral(opening) <= i128::MAX as int
    &&& 4 * mean_collateral(closing) <= i128::MAX as int
    &&& 4 * scaled_fees(opening, closing) <= i128::MAX as int
}

/// PnL of a closing batch against the opening fills it closes, each side
/// valued at its mean price; the first opening fill's side sets the sign.
pub open spec fn estimate_spec(opening: Seq<Fill>, closing: Seq<Fill>) -> int {
    let initial = mean_collateral(opening);
    let last = mean_collateral(closing);
    let fees = scaled_fees(opening, closing);
    if opening[0].side == Side::Buy {
        last - initial - fees
    } else {
        initial - last - fees
    }
}

/// Estimates the PnL of the closing event `close` against the fills of the
/// opening record it closes, valuing each side at its unweighted mean price.
/// This is the per-close variant; `reconcile_fills` is the batch-scan one.
pub fn estimate_against_opening(opening: &Vec<Fill>, close: &OrderEvent) -> (r: (i128, Strategy))
    requires
        opening@.len() > 0,
        close.wf(),
        estimate_within_range(opening@, close.data@),
    ensures
        r.0 as int == estimate_spec(opening@, close.data@),
        r.1 == (if opening@[0].side == Side::Buy { Strategy::LongTonic } else { Strategy::ShortColada }),
{
    let open_total = sum_amount(opening, Amount::Price);
    let open_mean = open_total / (opening.len() as u128);
    let open_qty = sum_amount(opening, Amount::ExecQty);
    let open_fees = sum_amount(opening, Amount::Fee);
    let close_mean = close.price();
    let close_qty = close.quantity();
    let close_fees = close.fees();
    proof {
        assert(0 <= open_mean as int * open_qty as int) by (nonlinear_arith);
        assert(0 <= close_mean as int * close_qty as int) by (nonlinear_arith);
    }
    let initial = (open_mean * open_qty) as i128;
    let last = (close_mean * close_qty) as i128;
    let fees = ((open_fees + close_fees) * (SCALE as u128)) as i128;
    if opening[0].side == Side::Buy {
        (last - initial - fees, Strategy::LongTonic)
    } else {
        (initial - last - fees, Strategy::ShortColada)
    }
}

} // verus!
