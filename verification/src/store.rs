//! The candles of each market.
use crate::candle::HlCandle;
use crate::text::same_text;
use vstd::prelude::*;

verus! {

/// The candles of one market.
#[derive(Clone, Debug)]
pub struct MarketCandles {
    pub market: String,
    pub candles: Vec<HlCandle>,
}

/// The candles of several markets, each market once.
#[derive(Clone, Debug)]
pub struct CandleStore {
    pub entries: Vec<MarketCandles>,
}

/// The entries have candles for this market.
pub open spec fn holds(entries: Seq<MarketCandles>, market: Seq<char>) -> bool {
    exists|k: int| 0 <= k < entries.len() && (#[trigger] entries[k]).market@ == market
}

/// The candles of the market in the entries.
pub open spec fn find(entries: Seq<MarketCandles>, market: Seq<char>) -> Seq<HlCandle> {
    entries[choose|k: int|
        0 <= k < entries.len() && (#[trigger] entries[k]).market@ == market].candles@
}

impl View for CandleStore {
    type V = Map<Seq<char>, Seq<HlCandle>>;

    open spec fn view(&self) -> Map<Seq<char>, Seq<HlCandle>> {
        Map::new(
            |market: Seq<char>| holds(self.entries@, market),
            |market: Seq<char>| find(self.entries@, market),
        )
    }
}

impl CandleStore {
    /// No market occurs twice.
    pub open spec fn wf(self) -> bool {
        forall|i: int, j: int|
            0 <= i < j < self.entries.len() ==> (#[trigger] self.entries@[i]).market@ != (
            #[trigger] self.entries@[j]).market@
    }

    proof fn entry_in_view(&self, k: int)
        requires
            self.wf(),
            0 <= k < self.entries.len(),
        ensures
            self@.dom().contains(self.entries@[k].market@),
            self@[self.entries@[k].market@] == self.entries@[k].candles@,
    {
        let market = self.entries@[k].market@;
        assert(holds(self.entries@, market));
        let m = choose|m: int|
            0 <= m < self.entries.len() && (#[trigger] self.entries@[m]).market@ == market;
        if m < k {
            assert(self.entries@[m].market@ != self.entries@[k].market@);
        } else if k < m {
            assert(self.entries@[k].market@ != self.entries@[m].market@);
        }
    }

    /// A store without candles.
    pub fn new() -> (r: CandleStore)
        ensures
            r.wf(),
            r@ == Map::<Seq<char>, Seq<HlCandle>>::empty(),
    {
        let r = CandleStore { entries: Vec::new() };
        assert(r@ =~= Map::empty());
        r
    }

    /// Where the market stands among the entries.
    fn index_of(&self, market: &str) -> (r: Option<usize>)
        requires
            self.wf(),
        ensures
            r is Some <==> self@.dom().contains(market@),
            r matches Some(k) ==> k < self.entries.len() && self.entries@[k as int].market@
                == market@ && self@[market@] == self.entries@[k as int].candles@,
    {
        let mut k: usize = 0;
        while k < self.entries.len()
            invariant
                self.wf(),
                k <= self.entries.len(),
                forall|j: int| 0 <= j < k ==> (#[trigger] self.entries@[j]).market@ != market@,
            decreases self.entries.len() - k,
        {
            if same_text(self.entries[k].market.as_str(), market) {
                proof {
                    self.entry_in_view(k as int);
                }
                return Some(k);
            }
            k = k + 1;
        }
        None
    }

    /// Puts in the candles of a market, in place of those it may have had.
    pub fn insert(&mut self, market: String, candles: Vec<HlCandle>)
        requires
            old(self).wf(),
        ensures
            final(self).wf(),
            final(self)@ == old(self)@.insert(market@, candles@),
    {
        let ghost before = self.entries@;
        let ghost old_view = self@;
        let ghost name = market@;
        let ghost put = candles@;
        let entry = MarketCandles { market, candles };
        match self.index_of(entry.market.as_str()) {
            Some(k) => {
                self.entries.set(k, entry);
                let ghost now = self.entries@;
                assert(now == before.update(k as int, entry));
                assert forall|m: Seq<char>| holds(now, m) <==> holds(before, m) by {
                    if holds(now, m) {
                        let i = choose|i: int|
                            0 <= i < now.len() && (#[trigger] now[i]).market@ == m;
                        assert(before[i].market@ == m);
                    }
                    if holds(before, m) {
                        let i = choose|i: int|
                            0 <= i < before.len() && (#[trigger] before[i]).market@ == m;
                        assert(now[i].market@ == m);
                    }
                }
                assert(self.wf()) by {
                    assert forall|i: int, j: int| 0 <= i < j < now.len() implies (
                    #[trigger] now[i]).market@ != (#[trigger] now[j]).market@ by {
                        assert(before[i].market@ != before[j].market@);
                    }
                }
                proof {
                    self.agrees_with(before, old_view, name, put);
                }
            },
            None => {
                self.entries.push(entry);
                let ghost now = self.entries@;
                assert(now == before.push(entry));
                assert(!holds(before, name));
                assert(self.wf()) by {
                    assert forall|i: int, j: int| 0 <= i < j < now.len() implies (
                    #[trigger] now[i]).market@ != (#[trigger] now[j]).market@ by {
                        if j == before.len() {
                            assert(before[i].market@ != name);
                        } else {
                            assert(before[i].market@ != before[j].market@);
                        }
                    }
                }
                assert forall|m: Seq<char>| holds(now, m) <==> (holds(before, m) || m == name) by {
                    if holds(before, m) {
                        let i = choose|i: int|
                            0 <= i < before.len() && (#[trigger] before[i]).market@ == m;
                        assert(now[i].market@ == m);
                    }
                    assert(now[before.len() as int].market@ == name);
                    if holds(now, m) && m != name {
                        let i = choose|i: int|
                            0 <= i < now.len() && (#[trigger] now[i]).market@ == m;
                        assert(before[i].market@ == m);
                    }
                }
                proof {
                    self.agrees_with(before, old_view, name, put);
                }
            },
        }
    }

    proof fn agrees_with(
        &self,
        before: Seq<MarketCandles>,
        old_view: Map<Seq<char>, Seq<HlCandle>>,
        name: Seq<char>,
        put: Seq<HlCandle>,
    )
        requires
            self.wf(),
            forall|i: int, j: int|
                0 <= i < j < before.len() ==> (#[trigger] before[i]).market@ != (
                #[trigger] before[j]).market@,
            forall|m: Seq<char>| #[trigger] old_view.dom().contains(m) <==> holds(before, m),
            forall|i: int|
                0 <= i < before.len() ==> old_view[(#[trigger] before[i]).market@]
                    == before[i].candles@,
            forall|m: Seq<char>|
                holds(self.entries@, m) <==> (holds(before, m) || m == name),
            forall|i: int|
                0 <= i < self.entries.len() ==> (#[trigger] self.entries@[i]).market@ == name
                    && self.entries@[i].candles@ == put || (i < before.len() && self.entries@[i]
                    == before[i]),
            exists|i: int|
                0 <= i < self.entries.len() && (#[trigger] self.entries@[i]).market@ == name
                    && self.entries@[i].candles@ == put,
        ensures
            self@ == old_view.insert(name, put),
    {
        let after = old_view.insert(name, put);
        assert forall|m: Seq<char>| self@.dom().contains(m) <==> after.dom().contains(m) by {
            assert(old_view.dom().contains(m) <==> holds(before, m));
        }
        assert forall|m: Seq<char>| self@.dom().contains(m) implies self@[m] == after[m] by {
            if m == name {
                let i = choose|i: int|
                    0 <= i < self.entries.len() && (#[trigger] self.entries@[i]).market@ == name
                        && self.entries@[i].candles@ == put;
                self.entry_in_view(i);
            } else {
                let i = choose|i: int|
                    0 <= i < self.entries.len() && (#[trigger] self.entries@[i]).market@ == m;
                self.entry_in_view(i);
                assert(self.entries@[i] == before[i]);
            }
        }
        assert(self@ =~= after);
    }

    /// The candles of a market.
    pub fn get(&self, market: &str) -> (r: Option<&Vec<HlCandle>>)
        requires
            self.wf(),
        ensures
            r is Some <==> self@.dom().contains(market@),
            r matches Some(candles) ==> candles@ == self@[market@],
    {
        match self.index_of(market) {
            Some(k) => Some(&self.entries[k].candles),
            None => None,
        }
    }

    /// Whether no market has a candle.
    pub fn is_blank(&self) -> (r: bool)
        requires
            self.wf(),
        ensures
            r <==> forall|m: Seq<char>| #[trigger]
                self@.dom().contains(m) ==> self@[m].len() == 0,
    {
        let mut k: usize = 0;
        while k < self.entries.len()
            invariant
                self.wf(),
                k <= self.entries.len(),
                forall|j: int| 0 <= j < k ==> (#[trigger] self.entries@[j]).candles@.len() == 0,
            decreases self.entries.len() - k,
        {
            if self.entries[k].candles.len() > 0 {
                proof {
                    self.entry_in_view(k as int);
                }
                return false;
            }
            k = k + 1;
        }
        assert forall|m: Seq<char>| #[trigger] self@.dom().contains(m) implies self@[m].len()
            == 0 by {
            let i = choose|i: int|
                0 <= i < self.entries.len() && (#[trigger] self.entries@[i]).market@ == m;
            self.entry_in_view(i);
        }
        true
    }

    /// How many candles each market has.
    pub fn counts(&self) -> (r: Vec<(String, usize)>)
        requires
            self.wf(),
        ensures
            counts_of(self@, r@),
    {
        let mut r: Vec<(String, usize)> = Vec::new();
        let mut k: usize = 0;
        while k < self.entries.len()
            invariant
                k <= self.entries.len(),
                r.len() == k,
                forall|j: int|
                    0 <= j < k ==> (#[trigger] r@[j]).0@ == self.entries@[j].market@ && r@[j].1
                        == self.entries@[j].candles.len(),
            decreases self.entries.len() - k,
        {
            r.push((self.entries[k].market.clone(), self.entries[k].candles.len()));
            k = k + 1;
        }
        assert forall|j: int| 0 <= j < r.len() implies self@.dom().contains((#[trigger] r@[j]).0@)
            && r@[j].1 == self@[r@[j].0@].len() by {
            self.entry_in_view(j);
        }
        assert forall|m: Seq<char>| #[trigger] self@.dom().contains(m) implies has_count_for(
            r@,
            m,
        ) by {
            let i = choose|i: int|
                0 <= i < self.entries.len() && (#[trigger] self.entries@[i]).market@ == m;
            assert(r@[i].0@ == m);
        }
        assert forall|i: int, j: int| 0 <= i < j < r.len() implies (#[trigger] r@[i]).0@ != (
        #[trigger] r@[j]).0@ by {
            assert(self.entries@[i].market@ != self.entries@[j].market@);
        }
        r
    }
}

/// A count for this market is there.
pub open spec fn has_count_for(counts: Seq<(String, usize)>, market: Seq<char>) -> bool {
    exists|k: int| 0 <= k < counts.len() && (#[trigger] counts[k]).0@ == market
}

/// The counts give for each market of the store, once, how many candles it has.
pub open spec fn counts_of(
    store: Map<Seq<char>, Seq<HlCandle>>,
    counts: Seq<(String, usize)>,
) -> bool {
    &&& forall|k: int|
        0 <= k < counts.len() ==> store.dom().contains((#[trigger] counts[k]).0@) && counts[k].1
            == store[counts[k].0@].len()
    &&& forall|m: Seq<char>| #[trigger] store.dom().contains(m) ==> has_count_for(counts, m)
    &&& forall|i: int, j: int|
        0 <= i < j < counts.len() ==> (#[trigger] counts[i]).0@ != (#[trigger] counts[j]).0@
}

/// The counts say of each market of the store how many candles it has, and of no other.
pub proof fn counts_say_what_the_store_holds(
    store: Map<Seq<char>, Seq<HlCandle>>,
    counts: Seq<(String, usize)>,
)
    requires
        counts_of(store, counts),
    ensures
        forall|m: Seq<char>| #[trigger]
            store.dom().contains(m) ==> exists|k: int|
                0 <= k < counts.len() && (#[trigger] counts[k]).0@ == m && counts[k].1
                    == store[m].len(),
        forall|k: int| 0 <= k < counts.len() ==> store.dom().contains((#[trigger] counts[k]).0@),
        forall|i: int, j: int|
            0 <= i < j < counts.len() ==> (#[trigger] counts[i]).0@ != (#[trigger] counts[j]).0@,
{
    assert forall|m: Seq<char>| #[trigger] store.dom().contains(m) implies exists|k: int|
        0 <= k < counts.len() && (#[trigger] counts[k]).0@ == m && counts[k].1 == store[m].len() by {
        assert(has_count_for(counts, m));
        let k = choose|k: int| 0 <= k < counts.len() && (#[trigger] counts[k]).0@ == m;
        assert(counts[k].0@ == m);
    }
}

/// The model of a store holds the candles of each market that has an entry, and no others.
pub proof fn store_views_are_faithful(store: CandleStore, k: int, market: Seq<char>)
    requires
        store.wf(),
        0 <= k < store.entries@.len(),
    ensures
        store@.dom().contains(store.entries@[k].market@),
        store@[store.entries@[k].market@] == store.entries@[k].candles@,
        store@.dom().contains(market) <==> exists|i: int|
            0 <= i < store.entries@.len() && (#[trigger] store.entries@[i]).market@ == market,
{
    store.entry_in_view(k);
    assert(store@.dom().contains(market) <==> holds(store.entries@, market));
}

} // verus!
