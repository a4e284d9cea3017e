use vstd::prelude::*;

verus! {

/// Which side of the book took the trade.
#[derive(Debug, Clone, Copy, PartialEq, Eq, Structural)]
pub enum Side {
    Buy,
    Sell,
}

/// One historical trade: a price in ticks, a quantity in lots, a side and its
/// position in the trade history.
#[derive(Debug, Clone, Copy, PartialEq, Eq, Structural)]
pub struct TradeRecord {
    pub price: u64,
    pub quantity: u64,
    pub side: Side,
    pub sequence: u64,
}

/// A running total over the trades of one side seen so far: the traded
/// quantity and the notional value (sum of price times quantity).
#[derive(Debug, Clone, Copy, PartialEq, Eq, Structural)]
pub struct RunningAverage {
    pub quantity: u128,
    pub notional: u128,
}

/// The running averages of both sides of a trade history.
#[derive(Debug, Clone)]
pub struct SideAverages {
    pub buy: Vec<RunningAverage>,
    pub sell: Vec<RunningAverage>,
}

/// The trades of `s` taken by `side`, in their order in `s`.
pub open spec fn of_side(s: Seq<TradeRecord>, side: Side) -> Seq<TradeRecord>
    decreases s.len(),
{
    if s.len() == 0 {
        s
    } else if s.last().side == side {
        of_side(s.drop_last(), side).push(s.last())
    } else {
        of_side(s.drop_last(), side)
    }
}

/// Total quantity of a run of trades.
pub open spec fn quantity_sum(s: Seq<TradeRecord>) -> nat
    decreases s.len(),
{
    if s.len() == 0 {
        0
    } else {
        (quantity_sum(s.drop_last()) + s.last().quantity) as nat
    }
}

/// Total notional value (price times quantity) of a run of trades.
pub open spec fn notional_sum(s: Seq<TradeRecord>) -> nat
    decreases s.len(),
{
    if s.len() == 0 {
        0
    } else {
        (notional_sum(s.drop_last()) + s.last().price * s.last().quantity) as nat
    }
}

/// Whether both totals of `s` fit in a `u128`.
pub open spec fn totals_fit(s: Seq<TradeRecord>) -> bool {
    quantity_sum(s) <= u128::MAX && notional_sum(s) <= u128::MAX
}

/// `out` holds, at each index `j`, the totals of the first `j + 1` trades of `f`.
pub open spec fn is_running_series(out: Seq<RunningAverage>, f: Seq<TradeRecord>) -> bool {
    &&& out.len() == f.len()
    &&& forall|j: int|
        0 <= j < out.len() ==> (#[trigger] out[j]).quantity == quantity_sum(f.take(j + 1))
            && out[j].notional == notional_sum(f.take(j + 1))
}

/// The volume-weighted average price of a running total: its notional value
/// divided by its quantity, rounded down.
pub open spec fn average_of(r: RunningAverage) -> nat
    recommends
        r.quantity > 0,
{
    (r.notional / r.quantity) as nat
}

proof fn lemma_of_side_prefix_sums(s: Seq<TradeRecord>, side: Side, i: int)
    requires
        0 <= i <= s.len(),
    ensures
        quantity_sum(of_side(s.take(i), side)) <= quantity_sum(of_side(s, side)),
        notional_sum(of_side(s.take(i), side)) <= notional_sum(of_side(s, side)),
    decreases s.len(),
{
    if i < s.len() {
        assert(s.drop_last().take(i) =~= s.take(i));
        lemma_of_side_prefix_sums(s.drop_last(), side, i);
        let f = of_side(s.drop_last(), side);
        if s.last().side == side {
            assert(f.push(s.last()).drop_last() =~= f);
        }
    } else {
        assert(s.take(i) =~= s);
    }
}

impl RunningAverage {
    /// The volume-weighted average price so far; `None` while no quantity has traded.
    pub fn price(&self) -> (r: Option<u128>)
        ensures
            self.quantity == 0 <==> r is None,
            r matches Some(p) ==> p == average_of(*self),
    {
        if self.quantity == 0 {
            None
        } else {
            Some(self.notional / self.quantity)
        }
    }
}

/// Groups `trades` by `side` and returns, for each trade of that side in
/// order, the running quantity and notional value up to and including it.
/// Returns `None` exactly when the side's totals overflow a `u128`.
pub fn running_averages(trades: &Vec<TradeRecord>, side: Side) -> (r: Option<Vec<RunningAverage>>)
    ensures
        r is Some <==> totals_fit(of_side(trades@, side)),
        r matches Some(out) ==> is_running_series(out@, of_side(trades@, side)),
{
    let mut out: Vec<RunningAverage> = Vec::new();
    let mut qty: u128 = 0;
    let mut notional: u128 = 0;
    let mut i: usize = 0;
    while i < trades.len()
        invariant
            0 <= i <= trades.len(),
            is_running_series(out@, of_side(trades@.take(i as int), side)),
            qty == quantity_sum(of_side(trades@.take(i as int), side)),
            notional == notional_sum(of_side(trades@.take(i as int), side)),
        decreases trades.len() - i,
    {
        let t = trades[i];
        let ghost f = of_side(trades@.take(i as int), side);
        assert(trades@.take(i as int + 1).drop_last() =~= trades@.take(i as int));
        if t.side == side {
            let ghost g = f.push(t);
            assert(g.drop_last() =~= f);
            assert(t.price as int * t.quantity as int <= u64::MAX as int * u64::MAX as int)
                by (nonlinear_arith)
                requires t.price <= u64::MAX, t.quantity <= u64::MAX;
            let product: u128 = t.price as u128 * t.quantity as u128;
            let nq = qty.checked_add(t.quantity as u128);
            let nn = notional.checked_add(product);
            if nq.is_none() || nn.is_none() {
                proof {
                    lemma_of_side_prefix_sums(trades@, side, i as int + 1);
                }
                return None;
            }
            qty = nq.unwrap();
            notional = nn.unwrap();
            proof {
                assert forall|j: int| 0 <= j < out@.len() implies #[trigger] g.take(j + 1) == f.take(j + 1) by {
                    assert(g.take(j + 1) =~= f.take(j + 1));
                }
                assert(g.take(g.len() as int) =~= g);
            }
            out.push(RunningAverage { quantity: qty, notional });
        }
        i = i + 1;
    }
    assert(trades@.take(i as int) =~= trades@);
    Some(out)
}

/// Runs [`running_averages`] on both sides of `trades`. Returns `None`
/// exactly when the totals of either side overflow a `u128`.
pub fn aggregate(trades: &Vec<TradeRecord>) -> (r: Option<SideAverages>)
    ensures
        r is Some <==> totals_fit(of_side(trades@, Side::Buy)) && totals_fit(of_side(trades@, Side::Sell)),
        r matches Some(a) ==> is_running_series(a.buy@, of_side(trades@, Side::Buy))
            && is_running_series(a.sell@, of_side(trades@, Side::Sell)),
{
    let buy = running_averages(trades, Side::Buy);
    let sell = running_averages(trades, Side::Sell);
    match (buy, sell) {
        (Some(buy), Some(sell)) => Some(SideAverages { buy, sell }),
        _ => None,
    }
}

/// A side's running averages depend on that side's trades alone, in their
/// order: histories that agree on one side's trades give that side the same series.
pub proof fn lemma_side_series_independent(
    a: Seq<RunningAverage>,
    b: Seq<RunningAverage>,
    s: Seq<TradeRecord>,
    t: Seq<TradeRecord>,
    side: Side,
)
    requires
        is_running_series(a, of_side(s, side)),
        is_running_series(b, of_side(t, side)),
        of_side(s, side) == of_side(t, side),
    ensures
        a == b,
{
    assert(a =~= b);
}

/// Trades of the other side leave a side's trades as they were, and a trade of
/// the side is added after the ones before it.
pub proof fn lemma_of_side_push(s: Seq<TradeRecord>, t: TradeRecord, side: Side)
    ensures
        t.side == side ==> of_side(s.push(t), side) == of_side(s, side).push(t),
        t.side != side ==> of_side(s.push(t), side) == of_side(s, side),
{
    assert(s.push(t).drop_last() =~= s);
}

/// The entry price that a trade history gives: the volume-weighted average
/// price of all its buys, when there are any with a quantity and it fits a `u64`.
pub open spec fn history_entry_spec(trades: Seq<TradeRecord>) -> Option<u64> {
    let f = of_side(trades, Side::Buy);
    if !totals_fit(f) || quantity_sum(f) == 0 {
        None
    } else {
        let avg = notional_sum(f) / quantity_sum(f);
        if avg <= u64::MAX {
            Some(avg as u64)
        } else {
            None
        }
    }
}

/// The entry price to seed an instrument with from its trade history; `None`
/// means that the history gives no seed, never a zero price from no trades.
pub fn history_entry(trades: &Vec<TradeRecord>) -> (r: Option<u64>)
    ensures
        r == history_entry_spec(trades@),
{
    let series = match running_averages(trades, Side::Buy) {
        Some(v) => v,
        None => return None,
    };
    let ghost f = of_side(trades@, Side::Buy);
    if series.len() == 0 {
        return None;
    }
    let last = series[series.len() - 1];
    proof {
        assert(f.take(f.len() as int) =~= f);
    }
    match last.price() {
        None => None,
        Some(p) => if p <= u64::MAX as u128 {
            Some(p as u64)
        } else {
            None
        },
    }
}

} // verus!
