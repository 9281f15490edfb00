use std::collections::VecDeque;
use vstd::prelude::*;

use vstd::relations::{sorted_by, total_ordering};
use vstd::seq_lib::lemma_sorted_unique;

use crate::record::{AggTrade, MAX_AMOUNT, MAX_CAPACITY, UNITS_PER_WHOLE};
use crate::window_math::{
    all_within, is_isqrt, isqrt, lemma_div_bounded, lemma_max_drop_first, lemma_min_drop_first,
    lemma_sum_bounded, lemma_sum_drop_first, seq_max, seq_min, seq_sum,
};

verus! {

/// Prices of a window, oldest first.
pub open spec fn prices_of(w: Seq<AggTrade>) -> Seq<int> {
    w.map_values(|t: AggTrade| t.price as int)
}

/// Squared prices of a window.
pub open spec fn squares_of(w: Seq<AggTrade>) -> Seq<int> {
    w.map_values(|t: AggTrade| t.price as int * t.price as int)
}

/// Quantities of a window.
pub open spec fn quantities_of(w: Seq<AggTrade>) -> Seq<int> {
    w.map_values(|t: AggTrade| t.quantity as int)
}

/// Price times quantity of each record of a window.
pub open spec fn notionals_of(w: Seq<AggTrade>) -> Seq<int> {
    w.map_values(|t: AggTrade| t.price as int * t.quantity as int)
}

/// 1 for each record whose buyer-maker flag equals `flag`, 0 for the others.
pub open spec fn maker_marks_of(w: Seq<AggTrade>, flag: bool) -> Seq<int> {
    w.map_values(|t: AggTrade| if t.is_buyer_maker == flag { 1int } else { 0int })
}

/// Number of records whose buyer-maker flag equals `flag`.
pub open spec fn maker_count(w: Seq<AggTrade>, flag: bool) -> int {
    seq_sum(maker_marks_of(w, flag))
}

/// Highest price of a window (0 when empty).
pub open spec fn max_price_of(w: Seq<AggTrade>) -> int {
    seq_max(prices_of(w))
}

/// Lowest price of a window (`u64::MAX` when empty).
pub open spec fn min_price_of(w: Seq<AggTrade>) -> int {
    seq_min(prices_of(w), u64::MAX as int)
}

/// The window after adding `t` to `w` under capacity `cap`: the oldest record
/// leaves first when the window is full.
pub open spec fn window_after_add(w: Seq<AggTrade>, cap: nat, t: AggTrade) -> Seq<AggTrade> {
    if w.len() >= cap && w.len() > 0 {
        w.drop_first().push(t)
    } else {
        w.push(t)
    }
}

/// Arithmetic mean of the window's prices, rounded down.
pub open spec fn average_of(w: Seq<AggTrade>) -> int {
    seq_sum(prices_of(w)) / (w.len() as int)
}

/// Prices of a window as stored.
pub open spec fn price_list(w: Seq<AggTrade>) -> Seq<u64> {
    w.map_values(|t: AggTrade| t.price)
}

/// The ascending order on amounts.
pub open spec fn ascending() -> spec_fn(u64, u64) -> bool {
    |a: u64, b: u64| a <= b
}

/// Middle element of a sorted sequence of odd length, or the mean (rounded
/// down) of its two middle elements for an even length.
pub open spec fn median_of_sorted(s: Seq<u64>) -> int {
    let n = s.len() as int;
    if n % 2 == 0 {
        (s[n / 2 - 1] + s[n / 2]) / 2
    } else {
        s[n / 2] as int
    }
}

/// Median price of a window.
pub open spec fn median_of(w: Seq<AggTrade>) -> int {
    median_of_sorted(price_list(w).sort_by(ascending()))
}

/// Population variance of the window's prices, computed as the mean square
/// less the squared mean (each rounded down), clamped at zero.
pub open spec fn variance_of(w: Seq<AggTrade>) -> int {
    let mean_square = seq_sum(squares_of(w)) / (w.len() as int);
    let mean = average_of(w);
    if mean_square >= mean * mean {
        mean_square - mean * mean
    } else {
        0
    }
}

/// Volume-weighted average price, rounded down.
pub open spec fn vwap_of(w: Seq<AggTrade>) -> int {
    seq_sum(notionals_of(w)) / seq_sum(quantities_of(w))
}

/// Simple moving average of the last `period` prices, rounded down.
pub open spec fn sma_of(w: Seq<AggTrade>, period: nat) -> int {
    seq_sum(prices_of(w).subrange(w.len() - period, w.len() as int)) / (period as int)
}

/// The exponential moving average after the first `n` prices: seeded with the
/// mean of the first `period`, then each price `p` moves it to
/// `(2 p + (period - 1) ema) / (period + 1)`, rounded down.
pub open spec fn ema_through(prices: Seq<int>, period: nat, n: int) -> int
    decreases n,
{
    if n <= period {
        seq_sum(prices.subrange(0, period as int)) / (period as int)
    } else {
        (2 * prices[n - 1] + (period - 1) * ema_through(prices, period, n - 1)) / (period + 1) as int
    }
}

/// Exponential moving average over the whole window.
pub open spec fn ema_of(w: Seq<AggTrade>, period: nat) -> int {
    ema_through(prices_of(w), period, w.len() as int)
}

/// Price changes between consecutive records, oldest first.
pub open spec fn deltas_of(w: Seq<AggTrade>) -> Seq<int> {
    Seq::new((w.len() - 1) as nat, |j: int| w[j + 1].price - w[j].price)
}

/// The last `period` price changes of a window.
pub open spec fn lookback_deltas(w: Seq<AggTrade>, period: nat) -> Seq<int> {
    deltas_of(w).subrange(w.len() - 1 - period, w.len() - 1)
}

/// The rise of each change, 0 where it did not rise.
pub open spec fn rises(d: Seq<int>) -> Seq<int> {
    d.map_values(|x: int| if x > 0 { x } else { 0 })
}

/// The fall of each change as a non-negative amount, 0 where it did not fall.
pub open spec fn falls(d: Seq<int>) -> Seq<int> {
    d.map_values(|x: int| if x > 0 { 0 } else { -x })
}

/// Sum of the rises among `d`.
pub open spec fn gains_of(d: Seq<int>) -> int {
    seq_sum(rises(d))
}

/// Sum of the falls among `d`.
pub open spec fn losses_of(d: Seq<int>) -> int {
    seq_sum(falls(d))
}

/// Relative strength index in units of 10^-8: `100` whole when nothing fell,
/// else `100 * gains / (gains + losses)`, rounded down.
pub open spec fn rsi_of(w: Seq<AggTrade>, period: nat) -> int {
    let g = gains_of(lookback_deltas(w, period));
    let l = losses_of(lookback_deltas(w, period));
    if l == 0 {
        100 * UNITS_PER_WHOLE
    } else {
        100 * UNITS_PER_WHOLE * g / (g + l)
    }
}

/// The window after adding each of `adds` in turn to an empty storage of
/// capacity `cap`.
pub open spec fn window_after_adds(cap: nat, adds: Seq<AggTrade>) -> Seq<AggTrade>
    decreases adds.len(),
{
    if adds.len() == 0 {
        Seq::empty()
    } else {
        window_after_add(window_after_adds(cap, adds.drop_last()), cap, adds.last())
    }
}

/// Index of the oldest of the `cap` most recent of `k` additions.
pub open spec fn oldest_resident(cap: nat, k: int) -> int {
    if k > cap {
        k - cap
    } else {
        0
    }
}

/// However many records are added, the window never holds more than its
/// capacity and holds exactly the most recent ones, so the average price is
/// the mean of exactly those records.
pub proof fn lemma_window_holds_most_recent(cap: nat, adds: Seq<AggTrade>)
    requires
        cap >= 1,
    ensures
        window_after_adds(cap, adds).len() <= cap,
        window_after_adds(cap, adds) == adds.subrange(
            oldest_resident(cap, adds.len() as int),
            adds.len() as int,
        ),
        adds.len() > 0 ==> average_of(window_after_adds(cap, adds)) == seq_sum(
            prices_of(adds.subrange(oldest_resident(cap, adds.len() as int), adds.len() as int)),
        ) / (adds.len() - oldest_resident(cap, adds.len() as int)),
    decreases adds.len(),
{
    let k = adds.len() as int;
    if k > 0 {
        let prev = adds.drop_last();
        lemma_window_holds_most_recent(cap, prev);
        let w = window_after_adds(cap, prev);
        if w.len() >= cap {
            assert(w.drop_first().push(adds.last()) =~= adds.subrange(
                oldest_resident(cap, k),
                k,
            ));
        } else {
            assert(w.push(adds.last()) =~= adds.subrange(oldest_resident(cap, k), k));
        }
    } else {
        assert(adds.subrange(0, 0) =~= Seq::<AggTrade>::empty());
    }
}

/// When no price fell over the lookback, the relative strength index is 100.
pub proof fn lemma_rsi_full_without_falls(w: Seq<AggTrade>, period: nat)
    requires
        w.len() > period,
        forall|i: int|
            0 <= i < lookback_deltas(w, period).len() ==> #[trigger] lookback_deltas(w, period)[i]
                >= 0,
    ensures
        rsi_of(w, period) == 100 * UNITS_PER_WHOLE,
{
    let d = lookback_deltas(w, period);
    assert(all_within(falls(d), 0));
    lemma_sum_bounded(falls(d), 0);
    assert(falls(d).len() * 0 == 0);
}

/// Everything the presenter shows after one delivered trade, taken between
/// two additions. Amounts are in units of 10^-8.
pub struct Snapshot {
    /// The most recent trades, oldest first.
    pub trades: Vec<AggTrade>,
    /// Event time and price of every record in the window, oldest first.
    pub price_points: Vec<(u64, u64)>,
    pub avg_price: Option<u64>,
    pub median_price: Option<u64>,
    pub std_dev: Option<u64>,
    pub total_volume: u128,
    pub vwap: Option<u64>,
    pub max_price: Option<u64>,
    pub min_price: Option<u64>,
    pub ema: Option<u64>,
    pub sma: Option<u64>,
    pub rsi: Option<u64>,
    pub buyer_maker_count: (usize, usize),
    /// Price of the newest trade.
    pub last_price: Option<u64>,
}

/// Index of the first of the `recent` newest records of a window of `len`.
pub open spec fn recent_start(len: nat, recent: nat) -> int {
    if len > recent {
        len - recent
    } else {
        0
    }
}

/// Every record of the window satisfies the record bounds.
pub open spec fn records_wf(w: Seq<AggTrade>) -> bool {
    forall|i: int| 0 <= i < w.len() ==> (#[trigger] w[i]).wf()
}

/// A fixed-capacity window of the most recent trades, with running aggregates
/// kept equal to the corresponding reductions over the window.
pub struct AggTradeStorage {
    trades: VecDeque<AggTrade>,
    capacity: usize,
    total_price: u128,
    total_volume: u128,
    buyer_maker_true: usize,
    buyer_maker_false: usize,
    price_sum_squares: u128,
    max_price: u64,
    min_price: u64,
}

/// Highest price in the window, by a full scan.
fn scan_max_price(trades: &VecDeque<AggTrade>) -> (r: u64)
    ensures
        r == max_price_of(trades@),
{
    let mut m: u64 = 0;
    let mut i: usize = 0;
    while i < trades.len()
        invariant
            i <= trades@.len(),
            m == seq_max(prices_of(trades@.subrange(0, i as int))),
        decreases trades@.len() - i,
    {
        proof {
            let a = prices_of(trades@.subrange(0, i as int + 1));
            assert(a.drop_last() =~= prices_of(trades@.subrange(0, i as int)));
        }
        let p = trades[i].price;
        if p > m {
            m = p;
        }
        i += 1;
    }
    proof {
        assert(trades@.subrange(0, trades@.len() as int) =~= trades@);
    }
    m
}

/// Lowest price in the window, by a full scan.
fn scan_min_price(trades: &VecDeque<AggTrade>) -> (r: u64)
    ensures
        r == min_price_of(trades@),
{
    let mut m: u64 = u64::MAX;
    let mut i: usize = 0;
    while i < trades.len()
        invariant
            i <= trades@.len(),
            m == seq_min(prices_of(trades@.subrange(0, i as int)), u64::MAX as int),
        decreases trades@.len() - i,
    {
        proof {
            let a = prices_of(trades@.subrange(0, i as int + 1));
            assert(a.drop_last() =~= prices_of(trades@.subrange(0, i as int)));
        }
        let p = trades[i].price;
        if p < m {
            m = p;
        }
        i += 1;
    }
    proof {
        assert(trades@.subrange(0, trades@.len() as int) =~= trades@);
    }
    m
}

/// The reductions of a window with its oldest record taken off.
proof fn lemma_reductions_drop_first(w: Seq<AggTrade>)
    requires
        w.len() > 0,
    ensures
        seq_sum(prices_of(w)) == w[0].price + seq_sum(prices_of(w.drop_first())),
        seq_sum(quantities_of(w)) == w[0].quantity + seq_sum(quantities_of(w.drop_first())),
        seq_sum(squares_of(w)) == w[0].price * w[0].price + seq_sum(squares_of(w.drop_first())),
        maker_count(w, true) == (if w[0].is_buyer_maker { 1int } else { 0int }) + maker_count(
            w.drop_first(),
            true,
        ),
        maker_count(w, false) == (if w[0].is_buyer_maker { 0int } else { 1int }) + maker_count(
            w.drop_first(),
            false,
        ),
        max_price_of(w) == if w[0].price > max_price_of(w.drop_first()) {
            w[0].price as int
        } else {
            max_price_of(w.drop_first())
        },
        min_price_of(w) == if w[0].price < min_price_of(w.drop_first()) {
            w[0].price as int
        } else {
            min_price_of(w.drop_first())
        },
{
    let r = w.drop_first();
    assert(prices_of(r) =~= prices_of(w).drop_first());
    assert(quantities_of(r) =~= quantities_of(w).drop_first());
    assert(squares_of(r) =~= squares_of(w).drop_first());
    assert(maker_marks_of(r, true) =~= maker_marks_of(w, true).drop_first());
    assert(maker_marks_of(r, false) =~= maker_marks_of(w, false).drop_first());
    lemma_sum_drop_first(prices_of(w));
    lemma_sum_drop_first(quantities_of(w));
    lemma_sum_drop_first(squares_of(w));
    lemma_sum_drop_first(maker_marks_of(w, true));
    lemma_sum_drop_first(maker_marks_of(w, false));
    lemma_max_drop_first(prices_of(w));
    lemma_min_drop_first(prices_of(w), u64::MAX as int);
}

/// The reductions of a window with a record appended.
proof fn lemma_reductions_push(w: Seq<AggTrade>, t: AggTrade)
    ensures
        seq_sum(prices_of(w.push(t))) == seq_sum(prices_of(w)) + t.price,
        seq_sum(quantities_of(w.push(t))) == seq_sum(quantities_of(w)) + t.quantity,
        seq_sum(squares_of(w.push(t))) == seq_sum(squares_of(w)) + t.price * t.price,
        seq_sum(notionals_of(w.push(t))) == seq_sum(notionals_of(w)) + t.price * t.quantity,
        maker_count(w.push(t), true) == maker_count(w, true) + (if t.is_buyer_maker {
            1int
        } else {
            0int
        }),
        maker_count(w.push(t), false) == maker_count(w, false) + (if t.is_buyer_maker {
            0int
        } else {
            1int
        }),
        max_price_of(w.push(t)) == if t.price > max_price_of(w) {
            t.price as int
        } else {
            max_price_of(w)
        },
        min_price_of(w.push(t)) == if t.price < min_price_of(w) {
            t.price as int
        } else {
            min_price_of(w)
        },
{
    let v = w.push(t);
    assert(prices_of(v).drop_last() =~= prices_of(w));
    assert(quantities_of(v).drop_last() =~= quantities_of(w));
    assert(squares_of(v).drop_last() =~= squares_of(w));
    assert(notionals_of(v).drop_last() =~= notionals_of(w));
    assert(maker_marks_of(v, true).drop_last() =~= maker_marks_of(w, true));
    assert(maker_marks_of(v, false).drop_last() =~= maker_marks_of(w, false));
}

/// Upper bounds of the reductions of a window of bounded records.
proof fn lemma_reductions_bounded(w: Seq<AggTrade>)
    requires
        records_wf(w),
        w.len() <= MAX_CAPACITY,
    ensures
        0 <= seq_sum(prices_of(w)) <= MAX_CAPACITY * MAX_AMOUNT,
        0 <= seq_sum(quantities_of(w)) <= MAX_CAPACITY * MAX_AMOUNT,
        0 <= seq_sum(squares_of(w)) <= MAX_CAPACITY * (MAX_AMOUNT * MAX_AMOUNT),
        0 <= seq_sum(notionals_of(w)) <= MAX_CAPACITY * (MAX_AMOUNT * MAX_AMOUNT),
        0 <= maker_count(w, true) <= w.len(),
        0 <= maker_count(w, false) <= w.len(),
{
    let m = MAX_AMOUNT as int;
    let n = w.len() as int;
    let c = MAX_CAPACITY as int;
    assert forall|i: int| 0 <= i < w.len() implies 0 <= #[trigger] squares_of(w)[i] <= m * m by {
        let p = w[i].price as int;
        assert(0 <= p <= m);
        assert(0 <= p * p <= m * m) by (nonlinear_arith)
            requires
                0 <= p <= m,
        ;
    }
    assert forall|i: int| 0 <= i < w.len() implies 0 <= #[trigger] notionals_of(w)[i] <= m * m by {
        let p = w[i].price as int;
        let q = w[i].quantity as int;
        assert(0 <= p <= m && 0 <= q <= m);
        assert(0 <= p * q <= m * m) by (nonlinear_arith)
            requires
                0 <= p <= m,
                0 <= q <= m,
        ;
    }
    assert(all_within(prices_of(w), m));
    assert(all_within(quantities_of(w), m));
    assert(all_within(maker_marks_of(w, true), 1));
    assert(all_within(maker_marks_of(w, false), 1));
    lemma_sum_bounded(prices_of(w), m);
    lemma_sum_bounded(quantities_of(w), m);
    lemma_sum_bounded(squares_of(w), m * m);
    lemma_sum_bounded(notionals_of(w), m * m);
    lemma_sum_bounded(maker_marks_of(w, true), 1);
    lemma_sum_bounded(maker_marks_of(w, false), 1);
    assert(n * m <= c * m) by (nonlinear_arith)
        requires
            0 <= n <= c,
            0 <= m,
    ;
    assert(n * (m * m) <= c * (m * m)) by (nonlinear_arith)
        requires
            0 <= n <= c,
            0 <= m,
    ;
}

/// The price sum of bounded records is at most their number times the bound.
proof fn lemma_sum_bounded_len(w: Seq<AggTrade>)
    requires
        records_wf(w),
    ensures
        0 <= seq_sum(prices_of(w)) <= w.len() * MAX_AMOUNT,
        0 <= seq_sum(squares_of(w)) <= w.len() * (MAX_AMOUNT * MAX_AMOUNT),
{
    let m = MAX_AMOUNT as int;
    assert forall|i: int| 0 <= i < w.len() implies 0 <= #[trigger] squares_of(w)[i] <= m * m by {
        let p = w[i].price as int;
        assert(0 <= p <= m);
        assert(0 <= p * p <= m * m) by (nonlinear_arith)
            requires
                0 <= p <= m,
        ;
    }
    assert(all_within(prices_of(w), m));
    lemma_sum_bounded(prices_of(w), m);
    lemma_sum_bounded(squares_of(w), m * m);
}

/// The volume-weighted average of bounded records is within the price bound.
proof fn lemma_vwap_bounded(w: Seq<AggTrade>)
    requires
        records_wf(w),
        seq_sum(quantities_of(w)) > 0,
    ensures
        0 <= vwap_of(w) <= MAX_AMOUNT,
    decreases w.len(),
{
    lemma_notional_le(w);
    let q = seq_sum(quantities_of(w));
    lemma_sum_bounded(quantities_of(w), MAX_AMOUNT as int);
    assert(all_within(quantities_of(w), MAX_AMOUNT as int));
    assert(q * MAX_AMOUNT == MAX_AMOUNT * q) by (nonlinear_arith);
    lemma_div_bounded(seq_sum(notionals_of(w)), q, MAX_AMOUNT as int);
}

/// Each notional is at most the bound times its quantity, so their sum is at
/// most the bound times the total quantity.
proof fn lemma_notional_le(w: Seq<AggTrade>)
    requires
        records_wf(w),
    ensures
        0 <= seq_sum(notionals_of(w)) <= seq_sum(quantities_of(w)) * MAX_AMOUNT,
    decreases w.len(),
{
    if w.len() > 0 {
        let v = w.drop_last();
        assert(w =~= v.push(w.last()));
        lemma_reductions_push(v, w.last());
        assert(records_wf(v));
        lemma_notional_le(v);
        assert(w.last().wf());
        let p = w.last().price as int;
        let q = w.last().quantity as int;
        let a = seq_sum(notionals_of(v));
        let b = seq_sum(quantities_of(v));
        assert(0 <= p * q <= q * MAX_AMOUNT) by (nonlinear_arith)
            requires
                0 <= p <= MAX_AMOUNT,
                0 <= q,
        ;
        assert((b + q) * MAX_AMOUNT == b * MAX_AMOUNT + q * MAX_AMOUNT) by (nonlinear_arith);
    } else {
        assert(notionals_of(w) =~= Seq::<int>::empty());
        assert(quantities_of(w) =~= Seq::<int>::empty());
    }
}

/// Relies on `slice::sort_unstable`: it sorts the slice in ascending order in
/// place, keeping its elements.
#[verifier::external_body]
fn sort_ascending(v: &mut Vec<u64>)
    ensures
        final(v)@.len() == old(v)@.len(),
        final(v)@.to_multiset() == old(v)@.to_multiset(),
        sorted_by(final(v)@, ascending()),
{
    v.sort_unstable();
}

/// `<=` on amounts is a total order.
proof fn lemma_ascending_total()
    ensures
        total_ordering(ascending()),
{
}

impl AggTradeStorage {
    /// The live window, oldest first.
    pub closed spec fn window(&self) -> Seq<AggTrade> {
        self.trades@
    }

    /// The capacity fixed at construction.
    pub closed spec fn cap(&self) -> nat {
        self.capacity as nat
    }

    /// The storage invariant: window within capacity, and each aggregate equal
    /// to its reduction over the window.
    pub closed spec fn wf(&self) -> bool {
        &&& 1 <= self.capacity <= MAX_CAPACITY
        &&& self.trades@.len() <= self.capacity
        &&& records_wf(self.trades@)
        &&& self.total_price == seq_sum(prices_of(self.trades@))
        &&& self.total_volume == seq_sum(quantities_of(self.trades@))
        &&& self.price_sum_squares == seq_sum(squares_of(self.trades@))
        &&& self.buyer_maker_true == maker_count(self.trades@, true)
        &&& self.buyer_maker_false == maker_count(self.trades@, false)
        &&& self.max_price == max_price_of(self.trades@)
        &&& self.min_price == min_price_of(self.trades@)
    }

    /// An empty storage with room for `capacity` trades.
    pub fn new(capacity: usize) -> (r: AggTradeStorage)
        requires
            1 <= capacity <= MAX_CAPACITY,
        ensures
            r.wf(),
            r.window() == Seq::<AggTrade>::empty(),
            r.cap() == capacity,
    {
        let r = AggTradeStorage {
            trades: VecDeque::with_capacity(capacity),
            capacity,
            total_price: 0,
            total_volume: 0,
            buyer_maker_true: 0,
            buyer_maker_false: 0,
            price_sum_squares: 0,
            max_price: 0,
            min_price: u64::MAX,
        };
        proof {
            assert(prices_of(r.trades@) =~= Seq::<int>::empty());
            assert(quantities_of(r.trades@) =~= Seq::<int>::empty());
            assert(squares_of(r.trades@) =~= Seq::<int>::empty());
            assert(maker_marks_of(r.trades@, true) =~= Seq::<int>::empty());
            assert(maker_marks_of(r.trades@, false) =~= Seq::<int>::empty());
        }
        r
    }

    /// Adds `trade` as the newest record, evicting the oldest first when the
    /// window is full. A bound is rescanned only when the evicted price equals it.
    pub fn add_trade(&mut self, trade: AggTrade)
        requires
            old(self).wf(),
            trade.wf(),
        ensures
            final(self).wf(),
            final(self).cap() == old(self).cap(),
            final(self).window() == window_after_add(old(self).window(), old(self).cap(), trade),
    {
        let ghost w0 = self.trades@;
        if self.trades.len() == self.capacity {
            let evicted = self.trades.pop_front();
            match evicted {
                Some(old_trade) => {
                    proof {
                        lemma_reductions_drop_first(w0);
                        lemma_reductions_bounded(w0.drop_first());
                        assert(self.trades@ =~= w0.drop_first());
                        assert(w0[0] == old_trade);
                    }
                    self.total_price = self.total_price - old_trade.price as u128;
                    self.total_volume = self.total_volume - old_trade.quantity as u128;
                    self.price_sum_squares = self.price_sum_squares - (old_trade.price as u128)
                        * (old_trade.price as u128);
                    if old_trade.is_buyer_maker {
                        self.buyer_maker_true = self.buyer_maker_true - 1;
                    } else {
                        self.buyer_maker_false = self.buyer_maker_false - 1;
                    }
                    if old_trade.price == self.max_price {
                        self.max_price = scan_max_price(&self.trades);
                    }
                    if old_trade.price == self.min_price {
                        self.min_price = scan_min_price(&self.trades);
                    }
                },
                None => {},
            }
        }
        let ghost w1 = self.trades@;
        proof {
            lemma_reductions_push(w1, trade);
            assert(records_wf(w1.push(trade)));
            lemma_reductions_bounded(w1.push(trade));
        }
        self.total_price = self.total_price + trade.price as u128;
        self.total_volume = self.total_volume + trade.quantity as u128;
        self.price_sum_squares = self.price_sum_squares + (trade.price as u128) * (
        trade.price as u128);
        if trade.price > self.max_price {
            self.max_price = trade.price;
        }
        if trade.price < self.min_price {
            self.min_price = trade.price;
        }
        if trade.is_buyer_maker {
            self.buyer_maker_true = self.buyer_maker_true + 1;
        } else {
            self.buyer_maker_false = self.buyer_maker_false + 1;
        }
        self.trades.push_back(trade);
        proof {
            assert(self.trades@ =~= window_after_add(w0, self.capacity as nat, trade));
        }
    }

    /// Mean price of the window, rounded down; `None` when empty.
    pub fn calculate_average_price(&self) -> (r: Option<u64>)
        requires
            self.wf(),
        ensures
            self.window().len() == 0 ==> r.is_none(),
            self.window().len() > 0 ==> r == Some(average_of(self.window()) as u64),
            self.window().len() > 0 ==> average_of(self.window()) <= MAX_AMOUNT,
    {
        if self.trades.len() == 0 {
            return None;
        }
        let n = self.trades.len();
        proof {
            lemma_sum_bounded_len(self.trades@);
            lemma_div_bounded(self.total_price as int, n as int, MAX_AMOUNT as int);
        }
        Some((self.total_price / n as u128) as u64)
    }

    /// Sum of the quantities in the window.
    pub fn total_volume(&self) -> (r: u128)
        requires
            self.wf(),
        ensures
            r == seq_sum(quantities_of(self.window())),
    {
        self.total_volume
    }

    /// Highest price in the window; `None` when empty.
    pub fn calculate_max_price(&self) -> (r: Option<u64>)
        requires
            self.wf(),
        ensures
            self.window().len() == 0 ==> r.is_none(),
            self.window().len() > 0 ==> r == Some(max_price_of(self.window()) as u64),
    {
        if self.trades.len() == 0 {
            return None;
        }
        Some(self.max_price)
    }

    /// Lowest price in the window; `None` when empty.
    pub fn calculate_min_price(&self) -> (r: Option<u64>)
        requires
            self.wf(),
        ensures
            self.window().len() == 0 ==> r.is_none(),
            self.window().len() > 0 ==> r == Some(min_price_of(self.window()) as u64),
    {
        if self.trades.len() == 0 {
            return None;
        }
        Some(self.min_price)
    }

    /// Number of records with the buyer-maker flag set, and with it clear.
    pub fn calculate_buyer_maker_count(&self) -> (r: (usize, usize))
        requires
            self.wf(),
        ensures
            r.0 == maker_count(self.window(), true),
            r.1 == maker_count(self.window(), false),
    {
        (self.buyer_maker_true, self.buyer_maker_false)
    }

    /// Volume-weighted average price, rounded down; `None` when the window is
    /// empty or its total quantity is zero.
    pub fn calculate_vwap(&self) -> (r: Option<u64>)
        requires
            self.wf(),
        ensures
            (self.window().len() == 0 || seq_sum(quantities_of(self.window())) == 0)
                ==> r.is_none(),
            (self.window().len() > 0 && seq_sum(quantities_of(self.window())) > 0) ==> r == Some(
                vwap_of(self.window()) as u64,
            ),
    {
        if self.trades.len() == 0 || self.total_volume == 0 {
            return None;
        }
        let ghost w = self.trades@;
        let mut acc: u128 = 0;
        let mut i: usize = 0;
        while i < self.trades.len()
            invariant
                self.wf(),
                w == self.trades@,
                i <= w.len(),
                acc == seq_sum(notionals_of(w.subrange(0, i as int))),
            decreases w.len() - i,
        {
            proof {
                let v = w.subrange(0, i as int + 1);
                assert(v =~= w.subrange(0, i as int).push(w[i as int]));
                lemma_reductions_push(w.subrange(0, i as int), w[i as int]);
                assert(records_wf(v));
                lemma_reductions_bounded(v);
            }
            let t = &self.trades[i];
            acc = acc + (t.price as u128) * (t.quantity as u128);
            i += 1;
        }
        proof {
            assert(w.subrange(0, w.len() as int) =~= w);
            lemma_vwap_bounded(w);
        }
        Some((acc / self.total_volume) as u64)
    }

    /// Mean of the last `period` prices, rounded down; `None` when `period` is
    /// zero or the window holds fewer than `period` records.
    pub fn calculate_sma(&self, period: usize) -> (r: Option<u64>)
        requires
            self.wf(),
        ensures
            (period == 0 || self.window().len() < period) ==> r.is_none(),
            (period > 0 && self.window().len() >= period) ==> r == Some(
                sma_of(self.window(), period as nat) as u64,
            ),
    {
        let n = self.trades.len();
        if period == 0 || n < period {
            return None;
        }
        let ghost w = self.trades@;
        let ghost tail = w.subrange(n - period, n as int);
        let mut acc: u128 = 0;
        let mut i: usize = n - period;
        while i < n
            invariant
                self.wf(),
                w == self.trades@,
                n == w.len(),
                0 < period <= n,
                n - period <= i <= n,
                acc == seq_sum(prices_of(w.subrange(n - period, i as int))),
            decreases n - i,
        {
            proof {
                let v = w.subrange(n - period, i as int + 1);
                assert(v =~= w.subrange(n - period, i as int).push(w[i as int]));
                lemma_reductions_push(w.subrange(n - period, i as int), w[i as int]);
                assert(records_wf(v));
                lemma_reductions_bounded(v);
            }
            acc = acc + self.trades[i].price as u128;
            i += 1;
        }
        proof {
            assert(prices_of(tail) =~= prices_of(w).subrange(n - period, n as int));
            assert(records_wf(tail));
            lemma_sum_bounded_len(tail);
            lemma_div_bounded(acc as int, period as int, MAX_AMOUNT as int);
        }
        Some((acc / period as u128) as u64)
    }

    /// Median price: the middle of the sorted prices for an odd count, the
    /// mean of the two middle ones (rounded down) for an even count; `None`
    /// when empty.
    pub fn calculate_median_price(&self) -> (r: Option<u64>)
        requires
            self.wf(),
        ensures
            self.window().len() == 0 ==> r.is_none(),
            self.window().len() > 0 ==> r == Some(median_of(self.window()) as u64),
    {
        let n = self.trades.len();
        if n == 0 {
            return None;
        }
        let ghost w = self.trades@;
        let mut prices: Vec<u64> = Vec::with_capacity(n);
        let mut i: usize = 0;
        while i < n
            invariant
                w == self.trades@,
                n == w.len(),
                i <= n,
                prices@ == price_list(w).subrange(0, i as int),
            decreases n - i,
        {
            prices.push(self.trades[i].price);
            i += 1;
            proof {
                assert(prices@ =~= price_list(w).subrange(0, i as int));
            }
        }
        proof {
            assert(prices@ =~= price_list(w));
        }
        sort_ascending(&mut prices);
        proof {
            lemma_ascending_total();
            price_list(w).lemma_sort_by_ensures(ascending());
            lemma_sorted_unique(prices@, price_list(w).sort_by(ascending()), ascending());
        }
        let mid = n / 2;
        if n % 2 == 0 {
            Some(((prices[mid - 1] as u128 + prices[mid] as u128) / 2) as u64)
        } else {
            Some(prices[mid])
        }
    }

    /// Population standard deviation of the prices: the integer square root of
    /// `variance_of`; `None` when empty.
    pub fn calculate_standard_deviation(&self) -> (r: Option<u64>)
        requires
            self.wf(),
        ensures
            self.window().len() == 0 ==> r.is_none(),
            self.window().len() > 0 ==> r.is_some() && is_isqrt(
                r.unwrap() as int,
                variance_of(self.window()),
            ),
    {
        let n = self.trades.len();
        if n == 0 {
            return None;
        }
        proof {
            lemma_sum_bounded_len(self.trades@);
            lemma_div_bounded(self.total_price as int, n as int, MAX_AMOUNT as int);
            lemma_div_bounded(
                self.price_sum_squares as int,
                n as int,
                MAX_AMOUNT as int * MAX_AMOUNT as int,
            );
        }
        let mean_square = self.price_sum_squares / n as u128;
        let mean = self.total_price / n as u128;
        assert(mean * mean <= MAX_AMOUNT as int * MAX_AMOUNT as int) by (nonlinear_arith)
            requires
                mean <= MAX_AMOUNT,
        ;
        let variance = if mean_square >= mean * mean {
            mean_square - mean * mean
        } else {
            0
        };
        Some(isqrt(variance))
    }

    /// Exponential moving average with factor `2 / (period + 1)`, seeded with
    /// the mean of the oldest `period` prices; `None` when `period` is zero or
    /// the window holds fewer than `period` records.
    pub fn calculate_ema(&self, period: usize) -> (r: Option<u64>)
        requires
            self.wf(),
        ensures
            (period == 0 || self.window().len() < period) ==> r.is_none(),
            (period > 0 && self.window().len() >= period) ==> r == Some(
                ema_of(self.window(), period as nat) as u64,
            ),
    {
        let n = self.trades.len();
        if period == 0 || n < period {
            return None;
        }
        let ghost w = self.trades@;
        let ghost ps = prices_of(w);
        let mut acc: u128 = 0;
        let mut i: usize = 0;
        while i < period
            invariant
                self.wf(),
                w == self.trades@,
                ps == prices_of(w),
                n == w.len(),
                0 < period <= n,
                i <= period,
                acc == seq_sum(ps.subrange(0, i as int)),
                acc <= i * MAX_AMOUNT,
            decreases period - i,
        {
            proof {
                let v = w.subrange(0, i as int + 1);
                assert(prices_of(v) =~= ps.subrange(0, i as int + 1));
                assert(ps.subrange(0, i as int + 1).drop_last() =~= ps.subrange(0, i as int));
                assert(records_wf(v));
                lemma_sum_bounded_len(v);
            }
            acc = acc + self.trades[i].price as u128;
            i += 1;
        }
        proof {
            lemma_div_bounded(acc as int, period as int, MAX_AMOUNT as int);
        }
        let mut ema: u128 = acc / period as u128;
        let mut j: usize = period;
        while j < n
            invariant
                self.wf(),
                w == self.trades@,
                ps == prices_of(w),
                n == w.len(),
                0 < period <= j <= n,
                n <= MAX_CAPACITY,
                ema == ema_through(ps, period as nat, j as int),
                ema <= MAX_AMOUNT,
            decreases n - j,
        {
            let p = self.trades[j].price as u128;
            proof {
                assert(w[j as int].wf());
                let k = period as int;
                assert((k - 1) * ema <= (k - 1) * MAX_AMOUNT) by (nonlinear_arith)
                    requires
                        1 <= k,
                        ema <= MAX_AMOUNT,
                ;
                assert(2 * p + (k - 1) * ema <= (k + 1) * MAX_AMOUNT) by (nonlinear_arith)
                    requires
                        p <= MAX_AMOUNT,
                        (k - 1) * ema <= (k - 1) * MAX_AMOUNT,
                ;
                lemma_div_bounded(2 * p + (k - 1) * ema, k + 1, MAX_AMOUNT as int);
            }
            ema = (2 * p + (period as u128 - 1) * ema) / (period as u128 + 1);
            j += 1;
        }
        Some(ema as u64)
    }

    /// Relative strength index over the last `period` price changes, in units
    /// of 10^-8 (`100` whole is `100 * UNITS_PER_WHOLE`); `None` when the
    /// window holds `period` records or fewer.
    pub fn calculate_rsi(&self, period: usize) -> (r: Option<u64>)
        requires
            self.wf(),
        ensures
            self.window().len() <= period ==> r.is_none(),
            self.window().len() > period ==> r == Some(rsi_of(self.window(), period as nat) as u64),
    {
        let n = self.trades.len();
        if n <= period {
            return None;
        }
        let ghost w = self.trades@;
        let ghost d = deltas_of(w);
        let start: usize = n - 1 - period;
        let mut gains: u128 = 0;
        let mut losses: u128 = 0;
        let mut j: usize = start;
        while j < n - 1
            invariant
                self.wf(),
                w == self.trades@,
                d == deltas_of(w),
                n == w.len(),
                n <= MAX_CAPACITY,
                start == n - 1 - period,
                start <= j <= n - 1,
                gains == gains_of(d.subrange(start as int, j as int)),
                losses == losses_of(d.subrange(start as int, j as int)),
                gains <= (j - start) * MAX_AMOUNT,
                losses <= (j - start) * MAX_AMOUNT,
            decreases n - 1 - j,
        {
            let earlier = self.trades[j].price;
            let later = self.trades[j + 1].price;
            proof {
                let a = d.subrange(start as int, j as int);
                let b = d.subrange(start as int, j as int + 1);
                assert(rises(b).drop_last() =~= rises(a));
                assert(falls(b).drop_last() =~= falls(a));
                assert(d[j as int] == later - earlier);
                assert(w[j as int].wf() && w[j as int + 1].wf());
                let c = (j - start) as int;
                assert(c * MAX_AMOUNT + MAX_AMOUNT == (c + 1) * MAX_AMOUNT) by (nonlinear_arith);
            }
            if later > earlier {
                gains = gains + (later - earlier) as u128;
            } else {
                losses = losses + (earlier - later) as u128;
            }
            j += 1;
        }
        proof {
            assert(d.subrange(start as int, (n - 1) as int) == lookback_deltas(w, period as nat));
        }
        if losses == 0 {
            return Some(100 * UNITS_PER_WHOLE);
        }
        let scale: u128 = 100 * UNITS_PER_WHOLE as u128;
        proof {
            let c = (n - 1 - start) as int;
            assert(c <= MAX_CAPACITY);
            assert(gains <= MAX_CAPACITY * MAX_AMOUNT) by (nonlinear_arith)
                requires
                    gains <= c * MAX_AMOUNT,
                    0 <= c <= MAX_CAPACITY,
            ;
            assert(scale * gains <= scale * (MAX_CAPACITY * MAX_AMOUNT)) by (nonlinear_arith)
                requires
                    gains <= MAX_CAPACITY * MAX_AMOUNT,
                    scale >= 0,
            ;
            assert(scale * gains <= (gains + losses) * scale) by (nonlinear_arith)
                requires
                    scale >= 0,
                    losses >= 0,
            ;
            lemma_div_bounded(scale * gains, (gains + losses) as int, scale as int);
        }
        Some(((scale * gains) / (gains + losses)) as u64)
    }

    /// The snapshot handed to the presenter: the `recent` newest trades, the
    /// price points of the whole window, and every statistic over the window.
    pub fn snapshot(&self, recent: usize, ema_period: usize, sma_period: usize, rsi_period: usize) -> (r:
        Snapshot)
        requires
            self.wf(),
        ensures
            r.trades@ == self.window().subrange(
                recent_start(self.window().len(), recent as nat),
                self.window().len() as int,
            ),
            r.price_points@.len() == self.window().len(),
            forall|i: int|
                0 <= i < self.window().len() ==> #[trigger] r.price_points@[i] == (
                    self.window()[i].timestamp,
                    self.window()[i].price,
                ),
            self.window().len() == 0 ==> {
                &&& r.avg_price.is_none() && r.median_price.is_none() && r.std_dev.is_none()
                &&& r.max_price.is_none() && r.min_price.is_none() && r.last_price.is_none()
            },
            self.window().len() > 0 ==> {
                &&& r.avg_price == Some(average_of(self.window()) as u64)
                &&& r.median_price == Some(median_of(self.window()) as u64)
                &&& r.std_dev.is_some() && is_isqrt(
                    r.std_dev.unwrap() as int,
                    variance_of(self.window()),
                )
                &&& r.max_price == Some(max_price_of(self.window()) as u64)
                &&& r.min_price == Some(min_price_of(self.window()) as u64)
                &&& r.last_price == Some(self.window().last().price)
            },
            r.total_volume == seq_sum(quantities_of(self.window())),
            (self.window().len() == 0 || seq_sum(quantities_of(self.window())) == 0)
                ==> r.vwap.is_none(),
            (self.window().len() > 0 && seq_sum(quantities_of(self.window())) > 0) ==> r.vwap
                == Some(vwap_of(self.window()) as u64),
            (ema_period == 0 || self.window().len() < ema_period) ==> r.ema.is_none(),
            (ema_period > 0 && self.window().len() >= ema_period) ==> r.ema == Some(
                ema_of(self.window(), ema_period as nat) as u64,
            ),
            (sma_period == 0 || self.window().len() < sma_period) ==> r.sma.is_none(),
            (sma_period > 0 && self.window().len() >= sma_period) ==> r.sma == Some(
                sma_of(self.window(), sma_period as nat) as u64,
            ),
            self.window().len() <= rsi_period ==> r.rsi.is_none(),
            self.window().len() > rsi_period ==> r.rsi == Some(
                rsi_of(self.window(), rsi_period as nat) as u64,
            ),
            r.buyer_maker_count == (
                maker_count(self.window(), true) as usize,
                maker_count(self.window(), false) as usize,
            ),
    {
        let n = self.trades.len();
        let start: usize = if n > recent {
            n - recent
        } else {
            0
        };
        let ghost w = self.trades@;
        let mut trades: Vec<AggTrade> = Vec::with_capacity(n - start);
        let mut i: usize = start;
        while i < n
            invariant
                w == self.trades@,
                n == w.len(),
                start <= i <= n,
                trades@ == w.subrange(start as int, i as int),
            decreases n - i,
        {
            trades.push(self.trades[i].duplicate());
            i += 1;
            proof {
                assert(trades@ =~= w.subrange(start as int, i as int));
            }
        }
        let mut price_points: Vec<(u64, u64)> = Vec::with_capacity(n);
        let mut j: usize = 0;
        while j < n
            invariant
                w == self.trades@,
                n == w.len(),
                j <= n,
                price_points@.len() == j,
                forall|k: int| 0 <= k < j ==> #[trigger] price_points@[k] == (w[k].timestamp, w[k].price),
            decreases n - j,
        {
            price_points.push((self.trades[j].timestamp, self.trades[j].price));
            j += 1;
        }
        let last_price = if n == 0 {
            None
        } else {
            Some(self.trades[n - 1].price)
        };
        let counts = self.calculate_buyer_maker_count();
        Snapshot {
            trades,
            price_points,
            avg_price: self.calculate_average_price(),
            median_price: self.calculate_median_price(),
            std_dev: self.calculate_standard_deviation(),
            total_volume: self.total_volume(),
            vwap: self.calculate_vwap(),
            max_price: self.calculate_max_price(),
            min_price: self.calculate_min_price(),
            ema: self.calculate_ema(ema_period),
            sma: self.calculate_sma(sma_period),
            rsi: self.calculate_rsi(rsi_period),
            buyer_maker_count: counts,
            last_price,
        }
    }

    /// The window, oldest to newest.
    pub fn get_trades(&self) -> (r: &VecDeque<AggTrade>)
        requires
            self.wf(),
        ensures
            r@ == self.window(),
    {
        &self.trades
    }
}

} // verus!
