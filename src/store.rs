use vstd::prelude::*;

verus! {

/// The tracked prices of one instrument, in ticks.
#[derive(Debug, Clone, Copy, PartialEq, Eq, Structural)]
pub struct PriceState {
    pub entry_price: u64,
    pub current_price: u64,
    pub position_size: u64,
}

/// One row of the store: an instrument key and its prices.
#[derive(Debug)]
pub struct Entry {
    pub symbol: String,
    pub state: PriceState,
}

/// Raised when an instrument is seeded a second time.
#[derive(Debug, Clone, PartialEq, Eq)]
pub struct DuplicateSeedError {
    pub symbol: String,
}

/// Raised when an update names an instrument that was never seeded.
#[derive(Debug, Clone, PartialEq, Eq)]
pub struct UnknownSymbolError {
    pub symbol: String,
}

/// The map that a run of entries describes; a later row wins over an earlier one.
pub open spec fn map_of(s: Seq<Entry>) -> Map<Seq<char>, PriceState>
    decreases s.len(),
{
    if s.len() == 0 {
        Map::empty()
    } else {
        map_of(s.drop_last()).insert(s.last().symbol@, s.last().state)
    }
}

/// No two rows share a key.
pub open spec fn keys_unique(s: Seq<Entry>) -> bool {
    forall|i: int, j: int|
        0 <= i < s.len() && 0 <= j < s.len() && i != j ==> s[i].symbol@ != s[j].symbol@
}

/// `st` with its current price replaced by `price`.
pub open spec fn with_current(st: PriceState, price: u64) -> PriceState {
    PriceState { current_price: price, ..st }
}

proof fn lemma_map_of_contains(s: Seq<Entry>, k: Seq<char>)
    ensures
        map_of(s).contains_key(k) <==> exists|i: int| 0 <= i < s.len() && s[i].symbol@ == k,
    decreases s.len(),
{
    if s.len() > 0 {
        lemma_map_of_contains(s.drop_last(), k);
        if map_of(s.drop_last()).contains_key(k) {
            let i = choose|i: int| 0 <= i < s.drop_last().len() && s.drop_last()[i].symbol@ == k;
            assert(s[i].symbol@ == k);
        }
        if exists|i: int| 0 <= i < s.len() && s[i].symbol@ == k {
            let i = choose|i: int| 0 <= i < s.len() && s[i].symbol@ == k;
            if i < s.len() - 1 {
                assert(s.drop_last()[i].symbol@ == k);
            }
        }
    }
}

proof fn lemma_map_of_at(s: Seq<Entry>, i: int)
    requires
        keys_unique(s),
        0 <= i < s.len(),
    ensures
        map_of(s).contains_key(s[i].symbol@),
        map_of(s)[s[i].symbol@] == s[i].state,
    decreases s.len(),
{
    if i < s.len() - 1 {
        assert(s.drop_last()[i] == s[i]);
        lemma_map_of_at(s.drop_last(), i);
    }
}

proof fn lemma_map_of_update(s: Seq<Entry>, i: int, e: Entry)
    requires
        keys_unique(s),
        0 <= i < s.len(),
        e.symbol@ == s[i].symbol@,
    ensures
        map_of(s.update(i, e)) == map_of(s).insert(e.symbol@, e.state),
    decreases s.len(),
{
    let t = s.update(i, e);
    if i == s.len() - 1 {
        assert(t.drop_last() =~= s.drop_last());
        assert(map_of(t) =~= map_of(s).insert(e.symbol@, e.state));
    } else {
        assert(t.drop_last() =~= s.drop_last().update(i, e));
        lemma_map_of_update(s.drop_last(), i, e);
        assert(s.last().symbol@ != e.symbol@);
        assert(map_of(t) =~= map_of(s).insert(e.symbol@, e.state));
    }
}

/// The instruments' prices, keyed by instrument; only the aggregation loop writes it.
pub struct PriceStore {
    pub entries: Vec<Entry>,
}

impl View for PriceStore {
    type V = Map<Seq<char>, PriceState>;

    open spec fn view(&self) -> Map<Seq<char>, PriceState> {
        map_of(self.entries@)
    }
}

impl PriceStore {
    /// No key is held twice.
    pub open spec fn wf(&self) -> bool {
        keys_unique(self.entries@)
    }

    /// An empty store.
    pub fn new() -> (r: PriceStore)
        ensures
            r.wf(),
            r@ == Map::<Seq<char>, PriceState>::empty(),
    {
        PriceStore { entries: Vec::new() }
    }

    /// Number of tracked instruments.
    pub fn len(&self) -> (r: usize)
        requires
            self.wf(),
        ensures
            r == self@.len(),
    {
        proof {
            self.lemma_len();
        }
        self.entries.len()
    }

    proof fn lemma_len(&self)
        requires
            self.wf(),
        ensures
            self@.dom().finite(),
            self@.len() == self.entries@.len(),
    {
        lemma_map_of_len(self.entries@);
    }

    /// Index of the row keyed by `symbol`, if there is one.
    fn find(&self, symbol: &String) -> (r: Option<usize>)
        requires
            self.wf(),
        ensures
            r is None <==> !self@.contains_key(symbol@),
            r matches Some(i) ==> i < self.entries@.len() && self.entries@[i as int].symbol@
                == symbol@,
    {
        proof {
            lemma_map_of_contains(self.entries@, symbol@);
        }
        let mut i: usize = 0;
        while i < self.entries.len()
            invariant
                0 <= i <= self.entries@.len(),
                forall|j: int| 0 <= j < i ==> self.entries@[j].symbol@ != symbol@,
            decreases self.entries@.len() - i,
        {
            if self.entries[i].symbol == *symbol {
                proof {
                    assert(self.entries@[i as int].symbol@ == symbol@);
                    lemma_map_of_contains(self.entries@, symbol@);
                }
                return Some(i);
            }
            i = i + 1;
        }
        None
    }

    /// The prices held for `symbol`.
    pub fn get(&self, symbol: &String) -> (r: Option<PriceState>)
        requires
            self.wf(),
        ensures
            r is Some <==> self@.contains_key(symbol@),
            r matches Some(st) ==> st == self@[symbol@],
    {
        match self.find(symbol) {
            Some(i) => {
                proof {
                    lemma_map_of_at(self.entries@, i as int);
                }
                Some(self.entries[i].state)
            },
            None => None,
        }
    }

    /// Adds `symbol` with `state`; an instrument is seeded once only.
    pub fn seed(&mut self, symbol: String, state: PriceState) -> (r: Result<(), DuplicateSeedError>)
        requires
            old(self).wf(),
        ensures
            final(self).wf(),
            r is Err <==> old(self)@.contains_key(symbol@),
            r is Ok ==> final(self)@ == old(self)@.insert(symbol@, state),
            r matches Err(e) ==> e.symbol@ == symbol@ && final(self)@ == old(self)@,
    {
        match self.find(&symbol) {
            Some(_) => Err(DuplicateSeedError { symbol }),
            None => {
                proof {
                    lemma_map_of_contains(self.entries@, symbol@);
                }
                let ghost before = self.entries@;
                self.entries.push(Entry { symbol, state });
                proof {
                    assert(self.entries@.drop_last() =~= before);
                }
                Ok(())
            },
        }
    }

    /// Sets the current price of `symbol`; an update for an unseeded symbol
    /// leaves the store as it was.
    pub fn apply_update(&mut self, symbol: &String, price: u64) -> (r: Result<(), UnknownSymbolError>)
        requires
            old(self).wf(),
        ensures
            final(self).wf(),
            r is Err <==> !old(self)@.contains_key(symbol@),
            r is Ok ==> final(self)@ == old(self)@.insert(
                symbol@,
                with_current(old(self)@[symbol@], price),
            ),
            r matches Err(e) ==> e.symbol@ == symbol@ && final(self)@ == old(self)@,
    {
        match self.find(symbol) {
            None => Err(UnknownSymbolError { symbol: symbol.clone() }),
            Some(i) => {
                let ghost before = self.entries@;
                proof {
                    lemma_map_of_at(before, i as int);
                }
                let st = self.entries[i].state;
                let name = self.entries[i].symbol.clone();
                let new_state = PriceState { current_price: price, ..st };
                self.entries.set(i, Entry { symbol: name, state: new_state });
                proof {
                    lemma_map_of_update(before, i as int, self.entries@[i as int]);
                    assert(self.entries@ =~= before.update(i as int, self.entries@[i as int]));
                }
                Ok(())
            },
        }
    }

    /// A copy of every row, for rendering.
    pub fn snapshot(&self) -> (r: Vec<Entry>)
        requires
            self.wf(),
        ensures
            r@.len() == self.entries@.len(),
            keys_unique(r@),
            map_of(r@) == self@,
    {
        let mut out: Vec<Entry> = Vec::new();
        let mut i: usize = 0;
        while i < self.entries.len()
            invariant
                0 <= i <= self.entries@.len(),
                out@.len() == i,
                forall|j: int| 0 <= j < i ==> (#[trigger] out@[j]).symbol@ == self.entries@[j].symbol@
                    && out@[j].state == self.entries@[j].state,
            decreases self.entries@.len() - i,
        {
            out.push(Entry { symbol: self.entries[i].symbol.clone(), state: self.entries[i].state });
            i = i + 1;
        }
        proof {
            lemma_map_of_same(out@, self.entries@);
        }
        out
    }
}

proof fn lemma_map_of_len(s: Seq<Entry>)
    requires
        keys_unique(s),
    ensures
        map_of(s).dom().finite(),
        map_of(s).len() == s.len(),
    decreases s.len(),
{
    if s.len() > 0 {
        let t = s.drop_last();
        assert(keys_unique(t));
        lemma_map_of_len(t);
        lemma_map_of_contains(t, s.last().symbol@);
        assert(!map_of(t).contains_key(s.last().symbol@));
    }
}

proof fn lemma_map_of_same(a: Seq<Entry>, b: Seq<Entry>)
    requires
        a.len() == b.len(),
        forall|j: int| 0 <= j < a.len() ==> (#[trigger] a[j]).symbol@ == b[j].symbol@ && a[j].state == b[j].state,
    ensures
        map_of(a) == map_of(b),
    decreases a.len(),
{
    if a.len() > 0 {
        lemma_map_of_same(a.drop_last(), b.drop_last());
    }
}

} // verus!
