//! Execution reports (fills) and the inbound batches that carry them.
use vstd::prelude::*;

verus! {

/// Number of fixed-point units in one whole unit of price, quantity or fee.
pub const SCALE: u64 = 100_000_000;

/// Direction of an execution.
#[derive(Clone, Copy, Debug, PartialEq, Eq, Structural)]
pub enum Side {
    Buy,
    Sell,
}

/// One execution report. Amounts are fixed-point, in units of `1 / SCALE`.
#[derive(Debug)]
pub struct Fill {
    pub symbol: String,
    pub side: Side,
    pub order_id: String,
    pub exec_id: String,
    /// Link/tag id: empty, an opening tag, or a `TP_`-tagged close.
    pub order_link_id: String,
    pub price: u64,
    pub order_qty: u64,
    pub exec_qty: u64,
    pub exec_fee: u64,
    pub leaves_qty: u64,
    pub is_maker: bool,
    /// Trade time, in milliseconds since the Unix epoch.
    pub trade_time: u64,
}

/// `pat` occurs in `s` as a contiguous substring.
pub open spec fn seq_contains(s: Seq<char>, pat: Seq<char>) -> bool {
    exists|i: int| 0 <= i && i + pat.len() <= s.len() && #[trigger] s.subrange(i, i + pat.len()) == pat
}

/// The marker that tags a take-profit / closing order.
pub open spec fn tp_marker() -> Seq<char> {
    seq!['T', 'P', '_']
}

/// `s` begins with `pat`.
pub open spec fn seq_starts_with(s: Seq<char>, pat: Seq<char>) -> bool {
    pat.len() <= s.len() && s.subrange(0, pat.len() as int) == pat
}

/// A link/tag id marks an opening order: it is non-empty and not `TP_`-prefixed.
pub open spec fn is_opening_tag(tag: Seq<char>) -> bool {
    tag.len() > 0 && !seq_starts_with(tag, tp_marker())
}

/// Relies on `str::contains` with a `&str` pattern: true exactly when `pat`
/// occurs in `s` as a substring.
#[verifier::external_body]
pub(crate) fn str_contains(s: &str, pat: &str) -> (r: bool)
    ensures
        r == seq_contains(s@, pat@),
{
    s.contains(pat)
}

/// Relies on `str::starts_with` with a `&str` pattern: true exactly when `s`
/// begins with `pat`.
#[verifier::external_body]
pub(crate) fn str_starts_with(s: &str, pat: &str) -> (r: bool)
    ensures
        r == seq_starts_with(s@, pat@),
{
    s.starts_with(pat)
}

/// Whether a link/tag id marks an opening order.
pub fn opening_tag(tag: &String) -> (r: bool)
    ensures
        r == is_opening_tag(tag@),
{
    let marker = "TP_";
    proof {
        reveal_strlit("TP_");
        assert(marker@ =~= tp_marker());
    }
    !tag.as_str().is_empty() && !str_starts_with(tag.as_str(), marker)
}

impl Fill {
    /// This fill belongs to an opening order.
    pub open spec fn spec_is_opening(&self) -> bool {
        is_opening_tag(self.order_link_id@)
    }

    pub fn is_opening(&self) -> (r: bool)
        ensures
            r == self.spec_is_opening(),
    {
        opening_tag(&self.order_link_id)
    }

    /// A field-by-field copy.
    pub fn duplicate(&self) -> (r: Fill)
        ensures
            r == *self,
    {
        Fill {
            symbol: self.symbol.clone(),
            side: self.side,
            order_id: self.order_id.clone(),
            exec_id: self.exec_id.clone(),
            order_link_id: self.order_link_id.clone(),
            price: self.price,
            order_qty: self.order_qty,
            exec_qty: self.exec_qty,
            exec_fee: self.exec_fee,
            leaves_qty: self.leaves_qty,
            is_maker: self.is_maker,
            trade_time: self.trade_time,
        }
    }
}

/// Sum of `f` over the fills of `s`.
pub open spec fn sum_by(s: Seq<Fill>, f: spec_fn(Fill) -> int) -> int
    decreases s.len(),
{
    if s.len() == 0 {
        0
    } else {
        sum_by(s.drop_last(), f) + f(s.last())
    }
}

pub proof fn lemma_sum_by_step(s: Seq<Fill>, f: spec_fn(Fill) -> int, i: int)
    requires
        0 <= i < s.len(),
    ensures
        sum_by(s.take(i + 1), f) == sum_by(s.take(i), f) + f(s[i]),
{
    assert(s.take(i + 1).drop_last() =~= s.take(i));
}

pub proof fn lemma_sum_by_full(s: Seq<Fill>, f: spec_fn(Fill) -> int)
    ensures
        sum_by(s.take(s.len() as int), f) == sum_by(s, f),
{
    assert(s.take(s.len() as int) =~= s);
}

/// Sum of `f` is bounded by the sum of `g` when `0 <= f <= g` pointwise.
pub proof fn lemma_sum_by_le(s: Seq<Fill>, f: spec_fn(Fill) -> int, g: spec_fn(Fill) -> int)
    requires
        forall|x: Fill| 0 <= #[trigger] f(x) <= g(x),
    ensures
        0 <= sum_by(s, f) <= sum_by(s, g),
    decreases s.len(),
{
    if s.len() > 0 {
        lemma_sum_by_le(s.drop_last(), f, g);
        assert(0 <= f(s.last()) <= g(s.last()));
    }
}

/// A prefix sum of a non-negative `f` is at most the whole sum.
pub proof fn lemma_sum_by_prefix(s: Seq<Fill>, f: spec_fn(Fill) -> int, i: int)
    requires
        0 <= i <= s.len(),
        forall|x: Fill| 0 <= #[trigger] f(x),
    ensures
        0 <= sum_by(s.take(i), f) <= sum_by(s, f),
    decreases s.len(),
{
    if i == s.len() {
        lemma_sum_by_full(s, f);
        lemma_sum_by_le(s, f, f);
    } else {
        assert(s.take(i) =~= s.drop_last().take(i));
        lemma_sum_by_prefix(s.drop_last(), f, i);
        assert(0 <= f(s.last()));
    }
}

pub open spec fn price_of(x: Fill) -> int {
    x.price as int
}

pub open spec fn exec_qty_of(x: Fill) -> int {
    x.exec_qty as int
}

pub open spec fn fee_of(x: Fill) -> int {
    x.exec_fee as int
}

/// Which amount of a fill to add up.
#[derive(Clone, Copy, Debug, PartialEq, Eq, Structural)]
pub enum Amount {
    Price,
    ExecQty,
    Fee,
}

pub open spec fn amount_fn(k: Amount) -> spec_fn(Fill) -> int {
    match k {
        Amount::Price => |x: Fill| price_of(x),
        Amount::ExecQty => |x: Fill| exec_qty_of(x),
        Amount::Fee => |x: Fill| fee_of(x),
    }
}

/// Exact sum of one amount over all fills; it cannot overflow `u128`.
pub fn sum_amount(fills: &Vec<Fill>, k: Amount) -> (r: u128)
    ensures
        r as int == sum_by(fills@, amount_fn(k)),
{
    let f = Ghost(amount_fn(k));
    let mut acc: u128 = 0;
    let mut i: usize = 0;
    while i < fills.len()
        invariant
            i <= fills.len(),
            f@ == amount_fn(k),
            acc as int == sum_by(fills@.take(i as int), f@),
            acc as int <= i * (u64::MAX as int),
        decreases fills.len() - i,
    {
        let x = &fills[i];
        let v: u64 = match k {
            Amount::Price => x.price,
            Amount::ExecQty => x.exec_qty,
            Amount::Fee => x.exec_fee,
        };
        proof {
            lemma_sum_by_step(fills@, f@, i as int);
            assert(f@(fills@[i as int]) == v as int);
            assert((i + 1) * (u64::MAX as int) == i * (u64::MAX as int) + u64::MAX as int) by (nonlinear_arith);
            assert((i + 1) * (u64::MAX as int) < u128::MAX) by (nonlinear_arith)
                requires i < usize::MAX;
        }
        acc = acc + v as u128;
        i = i + 1;
    }
    proof {
        lemma_sum_by_full(fills@, f@);
    }
    acc
}

} // verus!
