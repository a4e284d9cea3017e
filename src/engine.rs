use vstd::prelude::*;
use crate::parse::{MalformedMessageError, parse_price, tick_digits, value_of, well_formed};
use crate::store::{PriceState, PriceStore, UnknownSymbolError, with_current};

verus! {

/// A price seen by a listener for one instrument, on its way to the loop.
#[derive(Debug, Clone)]
pub struct PriceUpdate {
    pub symbol: String,
    pub price: u64,
}

/// What the loop does after an update: redraw the dashboard, or log that the
/// update named an instrument it does not track.
#[derive(Debug, Clone, PartialEq, Eq)]
pub enum Action {
    Render,
    LogUnknown(String),
}

/// The store after applying one update, by the rule of `PriceStore::apply_update`.
pub open spec fn apply_one(m: Map<Seq<char>, PriceState>, u: PriceUpdate) -> Map<Seq<char>, PriceState> {
    if m.contains_key(u.symbol@) {
        m.insert(u.symbol@, with_current(m[u.symbol@], u.price))
    } else {
        m
    }
}

/// The store after applying `us` in order.
pub open spec fn apply_all(m: Map<Seq<char>, PriceState>, us: Seq<PriceUpdate>) -> Map<Seq<char>, PriceState>
    decreases us.len(),
{
    if us.len() == 0 {
        m
    } else {
        apply_one(apply_all(m, us.drop_last()), us.last())
    }
}

/// The prices that `us` carries for instrument `k`, in order of arrival.
pub open spec fn prices_for(us: Seq<PriceUpdate>, k: Seq<char>) -> Seq<u64>
    decreases us.len(),
{
    if us.len() == 0 {
        Seq::empty()
    } else if us.last().symbol@ == k {
        prices_for(us.drop_last(), k).push(us.last().price)
    } else {
        prices_for(us.drop_last(), k)
    }
}

/// Applies one update to the store and says what to do next.
pub fn deliver(store: &mut PriceStore, update: &PriceUpdate) -> (r: Action)
    requires
        old(store).wf(),
    ensures
        final(store).wf(),
        final(store)@ == apply_one(old(store)@, *update),
        r == Action::Render <==> old(store)@.contains_key(update.symbol@),
        r matches Action::LogUnknown(s) ==> s@ == update.symbol@,
{
    match store.apply_update(&update.symbol, update.price) {
        Ok(()) => Action::Render,
        Err(UnknownSymbolError { symbol }) => Action::LogUnknown(symbol),
    }
}

/// How many of `us` name a key outside `m`.
pub open spec fn unknown_count(m: Map<Seq<char>, PriceState>, us: Seq<PriceUpdate>) -> nat
    decreases us.len(),
{
    if us.len() == 0 {
        0
    } else if m.contains_key(us.last().symbol@) {
        unknown_count(m, us.drop_last())
    } else {
        unknown_count(m, us.drop_last()) + 1
    }
}

/// Applies every update of `updates` in order; returns how many were dropped
/// for naming an instrument the store does not track.
pub fn deliver_all(store: &mut PriceStore, updates: &Vec<PriceUpdate>) -> (dropped: usize)
    requires
        old(store).wf(),
    ensures
        final(store).wf(),
        final(store)@ == apply_all(old(store)@, updates@),
        dropped == unknown_count(old(store)@, updates@),
{
    let ghost start = store@;
    let mut dropped: usize = 0;
    let mut i: usize = 0;
    while i < updates.len()
        invariant
            0 <= i <= updates@.len(),
            dropped <= i,
            dropped == unknown_count(start, updates@.take(i as int)),
            store.wf(),
            store@ == apply_all(start, updates@.take(i as int)),
        decreases updates@.len() - i,
    {
        proof {
            assert(updates@.take(i as int + 1).drop_last() =~= updates@.take(i as int));
            lemma_entry_price_invariant(start, updates@.take(i as int));
            assert(store@.contains_key(updates@[i as int].symbol@) == start.contains_key(updates@[i as int].symbol@));
        }
        match deliver(store, &updates[i]) {
            Action::Render => {},
            Action::LogUnknown(_) => {
                dropped = dropped + 1;
            },
        }
        i = i + 1;
    }
    proof {
        assert(updates@.take(i as int) =~= updates@);
    }
    dropped
}

/// Updates never add or remove an instrument, and never touch an entry price
/// or a position size: only current prices change.
pub proof fn lemma_entry_price_invariant(m: Map<Seq<char>, PriceState>, us: Seq<PriceUpdate>)
    ensures
        apply_all(m, us).dom() == m.dom(),
        forall|k: Seq<char>| #[trigger] m.contains_key(k) ==> apply_all(m, us)[k].entry_price == m[k].entry_price
            && apply_all(m, us)[k].position_size == m[k].position_size,
    decreases us.len(),
{
    if us.len() > 0 {
        lemma_entry_price_invariant(m, us.drop_last());
        let p = apply_all(m, us.drop_last());
        if p.contains_key(us.last().symbol@) {
            assert(apply_all(m, us).dom() =~= p.dom());
        }
    }
}

/// A tracked instrument ends at the last price delivered for it, or keeps its
/// price when none was delivered.
pub proof fn lemma_last_price_wins(m: Map<Seq<char>, PriceState>, us: Seq<PriceUpdate>, k: Seq<char>)
    requires
        m.contains_key(k),
    ensures
        apply_all(m, us).contains_key(k),
        prices_for(us, k).len() == 0 ==> apply_all(m, us)[k] == m[k],
        prices_for(us, k).len() > 0 ==> apply_all(m, us)[k].current_price == prices_for(us, k).last(),
    decreases us.len(),
{
    lemma_entry_price_invariant(m, us);
    if us.len() > 0 {
        lemma_last_price_wins(m, us.drop_last(), k);
        lemma_entry_price_invariant(m, us.drop_last());
    }
}

/// However the updates of several listeners interleave, if the updates that
/// reach the loop for instrument `k` are, in order, the prices that its
/// listener emitted, then `k` ends at the last price that listener emitted.
pub proof fn lemma_listener_order_kept(
    m: Map<Seq<char>, PriceState>,
    merged: Seq<PriceUpdate>,
    k: Seq<char>,
    emitted: Seq<u64>,
)
    requires
        m.contains_key(k),
        prices_for(merged, k) == emitted,
        emitted.len() > 0,
    ensures
        apply_all(m, merged)[k].current_price == emitted.last(),
{
    lemma_last_price_wins(m, merged, k);
}

/// Turns a trade message of a listener (its instrument and price text) into
/// an update; a price that does not parse fails that message alone.
pub fn normalize(symbol: &String, price: &str) -> (r: Result<PriceUpdate, MalformedMessageError>)
    ensures
        r is Ok <==> well_formed(price@) && value_of(tick_digits(price@)) <= u64::MAX,
        r matches Ok(u) ==> u.symbol@ == symbol@ && u.price == value_of(tick_digits(price@)),
{
    let p = parse_price(price)?;
    Ok(PriceUpdate { symbol: symbol.clone(), price: p })
}

/// Where the aggregation loop is in its life.
#[derive(Debug, Clone, Copy, PartialEq, Eq, Structural)]
pub enum Phase {
    Starting,
    Listening,
    Draining,
    Stopped,
}

/// The loop's phase and how many listeners are still open.
#[derive(Debug, Clone, Copy, PartialEq, Eq, Structural)]
pub struct LoopState {
    pub phase: Phase,
    pub open_listeners: u64,
}

/// What happened to the loop.
#[derive(Debug, Clone, Copy, PartialEq, Eq, Structural)]
pub enum LoopEvent {
    /// Every instrument was seeded and this many listeners were started.
    Started(u64),
    /// Seeding failed; the run cannot go on.
    StartFailed,
    /// A shutdown was asked for.
    Cancel,
    /// A listener ended, on request or on a lost connection.
    ListenerClosed,
    /// The wait for listeners to end ran out.
    Timeout,
}

/// What the loop does in answer to an event.
#[derive(Debug, Clone, Copy, PartialEq, Eq, Structural)]
pub enum Command {
    Nothing,
    /// Report a listener that ended while the loop was listening.
    ReportDisconnect,
    /// Ask every listener to close its subscription.
    CloseListeners,
    /// Stop the listeners that did not close in time.
    ForceTerminate,
    /// Abort startup with an error.
    Abort,
}

/// The phase the loop is in right after a listener count drops to `n` while draining.
pub open spec fn drained(n: u64) -> Phase {
    if n == 0 {
        Phase::Stopped
    } else {
        Phase::Draining
    }
}

/// The loop's transition on one event.
pub open spec fn next_spec(s: LoopState, e: LoopEvent) -> (LoopState, Command) {
    match (s.phase, e) {
        (Phase::Starting, LoopEvent::Started(n)) => (
            LoopState { phase: Phase::Listening, open_listeners: n },
            Command::Nothing,
        ),
        (Phase::Starting, LoopEvent::StartFailed) => (
            LoopState { phase: Phase::Stopped, open_listeners: 0 },
            Command::Abort,
        ),
        (Phase::Starting, LoopEvent::Cancel) => (
            LoopState { phase: Phase::Stopped, open_listeners: 0 },
            Command::Nothing,
        ),
        (Phase::Listening, LoopEvent::Cancel) => (
            LoopState { phase: drained(s.open_listeners), ..s },
            Command::CloseListeners,
        ),
        (Phase::Listening, LoopEvent::ListenerClosed) => (
            LoopState {
                open_listeners: if s.open_listeners > 0 { (s.open_listeners - 1) as u64 } else { 0 },
                ..s
            },
            Command::ReportDisconnect,
        ),
        (Phase::Draining, LoopEvent::ListenerClosed) => {
            let n: u64 = if s.open_listeners > 0 { (s.open_listeners - 1) as u64 } else { 0 };
            (LoopState { phase: drained(n), open_listeners: n }, Command::Nothing)
        },
        (Phase::Draining, LoopEvent::Timeout) => (
            LoopState { phase: Phase::Stopped, open_listeners: 0 },
            Command::ForceTerminate,
        ),
        _ => (s, Command::Nothing),
    }
}

/// Moves the loop's life on by one event.
pub fn next(s: LoopState, e: LoopEvent) -> (r: (LoopState, Command))
    ensures
        r == next_spec(s, e),
{
    match (s.phase, e) {
        (Phase::Starting, LoopEvent::Started(n)) => (
            LoopState { phase: Phase::Listening, open_listeners: n },
            Command::Nothing,
        ),
        (Phase::Starting, LoopEvent::StartFailed) => (
            LoopState { phase: Phase::Stopped, open_listeners: 0 },
            Command::Abort,
        ),
        (Phase::Starting, LoopEvent::Cancel) => (
            LoopState { phase: Phase::Stopped, open_listeners: 0 },
            Command::Nothing,
        ),
        (Phase::Listening, LoopEvent::Cancel) => (
            LoopState {
                phase: if s.open_listeners == 0 { Phase::Stopped } else { Phase::Draining },
                open_listeners: s.open_listeners,
            },
            Command::CloseListeners,
        ),
        (Phase::Listening, LoopEvent::ListenerClosed) => (
            LoopState {
                phase: Phase::Listening,
                open_listeners: if s.open_listeners > 0 { s.open_listeners - 1 } else { 0 },
            },
            Command::ReportDisconnect,
        ),
        (Phase::Draining, LoopEvent::ListenerClosed) => {
            let n: u64 = if s.open_listeners > 0 { s.open_listeners - 1 } else { 0 };
            (
                LoopState { phase: if n == 0 { Phase::Stopped } else { Phase::Draining }, open_listeners: n },
                Command::Nothing,
            )
        },
        (Phase::Draining, LoopEvent::Timeout) => (
            LoopState { phase: Phase::Stopped, open_listeners: 0 },
            Command::ForceTerminate,
        ),
        _ => (s, Command::Nothing),
    }
}

/// Whether the loop applies price updates in phase `p`: only while listening.
pub fn accepts_updates(p: Phase) -> (r: bool)
    ensures
        r <==> p == Phase::Listening,
{
    match p {
        Phase::Listening => true,
        _ => false,
    }
}

/// Once stopped, the loop stays stopped and does nothing, whatever happens.
pub proof fn lemma_stopped_is_final(s: LoopState, e: LoopEvent)
    requires
        s.phase == Phase::Stopped,
    ensures
        next_spec(s, e).0 == s,
        next_spec(s, e).1 == Command::Nothing,
{
}

} // verus!
