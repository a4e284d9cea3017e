use vstd::prelude::*;
use vstd::string::StrSliceExecFns;
use crate::store::{PriceState, PriceStore, keys_unique, map_of};
use crate::text::{lower_of, push_char, to_lower, to_upper, upper_of};
use vstd::string::StringExecFns;

verus! {

/// A tracked pair as the configuration gives it: its quote asset and,
/// optionally, the entry price (in ticks) to measure against.
#[derive(Debug, Clone)]
pub struct Pair {
    pub base: String,
    pub entry_price: Option<u64>,
}

/// The configuration: for each exchange, its pairs keyed by market name.
#[derive(Debug, Clone)]
pub struct Config {
    pub exchange: Vec<(String, Vec<(String, Pair)>)>,
}

/// A tracked instrument: its symbol, its quote asset and an optional seed
/// entry price in ticks.
#[derive(Debug, Clone)]
pub struct Instrument {
    pub symbol: String,
    pub base: String,
    pub entry_price: Option<u64>,
}

/// Why startup could not seed the store; either one aborts the run.
#[derive(Debug, Clone, PartialEq, Eq)]
pub enum StartupError {
    /// No current price, or a zero entry price, for this instrument key.
    SeedPriceUnavailable(String),
    /// Two instruments share this key.
    DuplicateSeed(String),
}

/// Index of the first `c` in `s`, or its length when there is none.
pub open spec fn first_index(s: Seq<char>, c: char) -> nat
    decreases s.len(),
{
    if s.len() == 0 {
        0
    } else if s[0] == c {
        0
    } else {
        1 + first_index(s.skip(1), c)
    }
}

/// The symbol and quote asset that a market name and its listing give:
/// `"BTC_USDT"` names both, a bare `"BTC"` takes its quote asset from the listing.
pub open spec fn split_spec(market: Seq<char>, listed_base: Seq<char>) -> (Seq<char>, Seq<char>) {
    let u = first_index(market, '_');
    if u == market.len() {
        (market, listed_base)
    } else {
        let rest = market.skip(u + 1 as int);
        (market.take(u as int), rest.take(first_index(rest, '_') as int))
    }
}

/// The store key of an instrument: symbol then quote asset, upper case.
pub open spec fn key_of(i: Instrument) -> Seq<char> {
    upper_of(i.symbol@ + i.base@)
}

/// The aggregated-trade stream of an instrument: symbol then quote asset,
/// lower case, then `@aggTrade`.
pub open spec fn stream_spec(i: Instrument) -> Seq<char> {
    lower_of(i.symbol@ + i.base@) + seq!['@', 'a', 'g', 'g', 'T', 'r', 'a', 'd', 'e']
}

/// The state an instrument is seeded with, if any: the current price comes
/// from the snapshot; the entry price from the configuration, else from the
/// trade history, else the snapshot; a zero entry price is refused.
pub open spec fn seed_spec(entry: Option<u64>, history: Option<u64>, snapshot: Option<u64>) -> Option<PriceState> {
    match snapshot {
        None => None,
        Some(cur) => {
            let e = match entry {
                Some(x) => x,
                None => match history {
                    Some(h) => h,
                    None => cur,
                },
            };
            if e == 0 {
                None
            } else {
                Some(PriceState { entry_price: e, current_price: cur, position_size: 0 })
            }
        },
    }
}

fn first_underscore(s: &str) -> (r: usize)
    ensures
        r == first_index(s@, '_'),
        r <= s@.len(),
{
    let n = s.unicode_len();
    let mut i: usize = 0;
    while i < n
        invariant
            0 <= i <= n,
            n == s@.len(),
            forall|j: int| 0 <= j < i ==> s@[j] != '_',
        decreases n - i,
    {
        if s.get_char(i) == '_' {
            proof {
                lemma_first_index(s@, '_', i as int);
            }
            return i;
        }
        i = i + 1;
    }
    proof {
        lemma_first_index(s@, '_', n as int);
    }
    n
}

pub(crate) proof fn lemma_first_index(s: Seq<char>, c: char, k: int)
    requires
        0 <= k <= s.len(),
        forall|j: int| 0 <= j < k ==> s[j] != c,
        k == s.len() || s[k] == c,
    ensures
        first_index(s, c) == k,
    decreases s.len(),
{
    if s.len() > 0 && k > 0 {
        lemma_first_index(s.skip(1), c, k - 1);
    }
}

/// Splits a market name into symbol and quote asset; see [`split_spec`].
pub fn split_market(market: &String, pair: &Pair) -> (r: Instrument)
    ensures
        (r.symbol@, r.base@) == split_spec(market@, pair.base@),
        r.entry_price == pair.entry_price,
{
    let m: &str = market.as_str();
    let n = m.unicode_len();
    let u = first_underscore(m);
    if u == n {
        return Instrument { symbol: market.clone(), base: pair.base.clone(), entry_price: pair.entry_price };
    }
    let sym = m.substring_char(0, u);
    let rest = m.substring_char(u + 1, n);
    let v = first_underscore(rest);
    let b = rest.substring_char(0, v);
    proof {
        assert(rest@ =~= market@.skip(u + 1 as int));
    }
    Instrument { symbol: sym.to_owned(), base: b.to_owned(), entry_price: pair.entry_price }
}

/// The instruments that `config` lists in the first section named
/// `exchange`, in its order; `None` when the exchange has no section.
pub fn instruments_for(config: &Config, exchange: &String) -> (r: Option<Vec<Instrument>>)
    ensures
        r is None <==> forall|i: int| 0 <= i < config.exchange@.len() ==> (#[trigger] config.exchange@[i]).0@ != exchange@,
        r matches Some(v) ==> exists|i: int| 0 <= i < config.exchange@.len()
            && (#[trigger] config.exchange@[i]).0@ == exchange@
            && (forall|j: int| 0 <= j < i ==> (#[trigger] config.exchange@[j]).0@ != exchange@)
            && lists(v@, config.exchange@[i].1@),
{
    let mut k: usize = 0;
    while k < config.exchange.len()
        invariant
            0 <= k <= config.exchange@.len(),
            forall|i: int| 0 <= i < k ==> (#[trigger] config.exchange@[i]).0@ != exchange@,
        decreases config.exchange@.len() - k,
    {
        if config.exchange[k].0 == *exchange {
            let pairs = &config.exchange[k].1;
            let mut out: Vec<Instrument> = Vec::new();
            let mut j: usize = 0;
            while j < pairs.len()
                invariant
                    0 <= j <= pairs@.len(),
                    out@.len() == j,
                    forall|x: int| 0 <= x < j ==> listed(#[trigger] out@[x], pairs@[x]),
                decreases pairs@.len() - j,
            {
                out.push(split_market(&pairs[j].0, &pairs[j].1));
                j = j + 1;
            }
            assert(config.exchange@[k as int].0@ == exchange@);
            return Some(out);
        }
        k = k + 1;
    }
    None
}

/// `inst` is what the market name and listing `p` describe.
pub open spec fn listed(inst: Instrument, p: (String, Pair)) -> bool {
    &&& (inst.symbol@, inst.base@) == split_spec(p.0@, p.1.base@)
    &&& inst.entry_price == p.1.entry_price
}

/// `v` holds one instrument for each listing of `pairs`, in order.
pub open spec fn lists(v: Seq<Instrument>, pairs: Seq<(String, Pair)>) -> bool {
    &&& v.len() == pairs.len()
    &&& forall|x: int| 0 <= x < v.len() ==> listed(#[trigger] v[x], pairs[x])
}

/// The store key of `inst`: symbol and quote asset in upper case.
pub fn instrument_key(inst: &Instrument) -> (r: String)
    ensures
        r@ == key_of(*inst),
{
    let mut name = inst.symbol.clone();
    name.append(inst.base.as_str());
    to_upper(name.as_str())
}

/// The name of the aggregated-trade stream to subscribe to for `inst`.
pub fn stream_name(inst: &Instrument) -> (r: String)
    ensures
        r@ == stream_spec(*inst),
{
    let mut name = inst.symbol.clone();
    name.append(inst.base.as_str());
    let mut out = to_lower(name.as_str());
    push_char(&mut out, '@');
    push_char(&mut out, 'a');
    push_char(&mut out, 'g');
    push_char(&mut out, 'g');
    push_char(&mut out, 'T');
    push_char(&mut out, 'r');
    push_char(&mut out, 'a');
    push_char(&mut out, 'd');
    push_char(&mut out, 'e');
    assert(out@ =~= stream_spec(*inst));
    out
}

/// The state to seed an instrument with; see [`seed_spec`].
pub fn seed_state(entry: Option<u64>, history: Option<u64>, snapshot: Option<u64>) -> (r: Option<PriceState>)
    ensures
        r == seed_spec(entry, history, snapshot),
{
    match snapshot {
        None => None,
        Some(cur) => {
            let e = match entry {
                Some(x) => x,
                None => match history {
                    Some(h) => h,
                    None => cur,
                },
            };
            if e == 0 {
                None
            } else {
                Some(PriceState { entry_price: e, current_price: cur, position_size: 0 })
            }
        },
    }
}

/// The store that seeding the first `n` instruments builds, each with the
/// history entry price and snapshot price at the same index.
pub open spec fn seeded_map(insts: Seq<Instrument>, hist: Seq<Option<u64>>, snaps: Seq<Option<u64>>, n: nat) -> Map<
    Seq<char>,
    PriceState,
>
    decreases n,
{
    if n == 0 {
        Map::empty()
    } else {
        let i = n - 1;
        seeded_map(insts, hist, snaps, i as nat).insert(
            key_of(insts[i]),
            seed_spec(insts[i].entry_price, hist[i], snaps[i])->Some_0,
        )
    }
}

/// Instrument `i` has a state to be seeded with.
pub open spec fn seedable(insts: Seq<Instrument>, hist: Seq<Option<u64>>, snaps: Seq<Option<u64>>, i: int) -> bool {
    seed_spec(insts[i].entry_price, hist[i], snaps[i]) is Some
}

/// No two of the instruments share a key.
pub open spec fn keys_distinct(insts: Seq<Instrument>) -> bool {
    forall|a: int, b: int|
        0 <= a < b < insts.len() ==> key_of(#[trigger] insts[a]) != key_of(#[trigger] insts[b])
}

/// Seeds a store with every instrument, each with the history entry price
/// and snapshot price at its index. Startup succeeds only when every instrument can be seeded and no
/// two share a key; otherwise it reports a key that is at fault.
pub fn seed_store(insts: &Vec<Instrument>, hist: &Vec<Option<u64>>, snaps: &Vec<Option<u64>>) -> (r: Result<PriceStore, StartupError>)
    requires
        insts@.len() == snaps@.len(),
        insts@.len() == hist@.len(),
    ensures
        r is Ok <==> (forall|i: int| 0 <= i < insts@.len() ==> seedable(insts@, hist@, snaps@, i))
            && keys_distinct(insts@),
        r matches Ok(store) ==> store.wf() && store@ == seeded_map(insts@, hist@, snaps@, insts@.len()),
        r matches Err(StartupError::SeedPriceUnavailable(k)) ==> exists|i: int|
            0 <= i < insts@.len() && key_of(#[trigger] insts@[i]) == k@ && !seedable(insts@, hist@, snaps@, i),
        r matches Err(StartupError::DuplicateSeed(k)) ==> exists|a: int, b: int|
            0 <= a < b < insts@.len() && key_of(#[trigger] insts@[a]) == k@ && key_of(#[trigger] insts@[b]) == k@,
{
    let mut store = PriceStore::new();
    let mut i: usize = 0;
    while i < insts.len()
        invariant
            0 <= i <= insts@.len(),
            insts@.len() == snaps@.len(),
            insts@.len() == hist@.len(),
            store.wf(),
            store@ == seeded_map(insts@, hist@, snaps@, i as nat),
            forall|a: int| 0 <= a < i ==> seedable(insts@, hist@, snaps@, a),
            forall|a: int, b: int| 0 <= a < b < i ==> key_of(#[trigger] insts@[a]) != key_of(#[trigger] insts@[b]),
            forall|k: Seq<char>| #[trigger] store@.contains_key(k) <==> exists|a: int| 0 <= a < i && key_of(#[trigger] insts@[a]) == k,
        decreases insts@.len() - i,
    {
        let key = instrument_key(&insts[i]);
        match seed_state(insts[i].entry_price, hist[i], snaps[i]) {
            None => {
                assert(!seedable(insts@, hist@, snaps@, i as int));
                return Err(StartupError::SeedPriceUnavailable(key));
            },
            Some(st) => {
                let ghost k = key@;
                let ghost before = store@;
                match store.seed(key, st) {
                    Err(e) => {
                        proof {
                            assert(before.contains_key(k));
                            let a = choose|a: int| 0 <= a < i && key_of(#[trigger] insts@[a]) == k;
                            assert(key_of(insts@[i as int]) == k);
                        }
                        return Err(StartupError::DuplicateSeed(e.symbol));
                    },
                    Ok(()) => {
                        proof {
                            assert forall|a: int, b: int| 0 <= a < b < i + 1 implies key_of(#[trigger] insts@[a]) != key_of(#[trigger] insts@[b]) by {
                                if b == i {
                                    if key_of(insts@[a]) == key_of(insts@[b]) {
                                        assert(before.contains_key(k));
                                    }
                                }
                            }
                            assert forall|kk: Seq<char>| #[trigger] store@.contains_key(kk) <==> exists|a: int| 0 <= a < i + 1 && key_of(#[trigger] insts@[a]) == kk by {
                                if kk == k {
                                    assert(key_of(insts@[i as int]) == kk);
                                } else if store@.contains_key(kk) {
                                    assert(before.contains_key(kk));
                                } else {
                                    assert(!before.contains_key(kk));
                                }
                            }
                        }
                    },
                }
            },
        }
        i = i + 1;
    }
    Ok(store)
}

} // verus!
