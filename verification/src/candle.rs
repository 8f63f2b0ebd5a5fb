//! Candles as the exchange delivers them, and the paging that collects them.
use crate::interval::{
    has_count, interval_fits, interval_ms, is_interval, parse_interval_ms, unit_of, IntervalError,
};
use crate::number::{answers_texts, reads, Double, Reading, ZERO};
use vstd::prelude::*;
use vstd::std_specs::convert::FromSpecImpl;

verus! {

/// A single OHLCV candle from Hyperliquid.
#[derive(Clone, Debug)]
pub struct HlCandle {
    /// Open time (milliseconds since epoch).
    pub t: i64,
    /// Close time (milliseconds since epoch).
    pub t_close: i64,
    /// Symbol (e.g., "BTC").
    pub s: String,
    /// Interval (e.g., "1m", "5m", "1h").
    pub i: String,
    /// Open price.
    pub o: String,
    /// Close price.
    pub c: String,
    /// High price.
    pub h: String,
    /// Low price.
    pub l: String,
    /// Volume.
    pub v: String,
    /// Number of trades.
    pub n: u64,
}

/// A candle under the field names of the exchange's own JSON.
#[derive(Clone, Debug)]
#[allow(non_snake_case)]
pub struct RawCandle {
    pub t: i64,
    pub T: i64,
    pub s: String,
    pub i: String,
    pub o: String,
    pub c: String,
    pub h: String,
    pub l: String,
    pub v: String,
    pub n: u64,
}

impl From<RawCandle> for HlCandle {
    fn from(r: RawCandle) -> (candle: HlCandle) {
        HlCandle {
            t: r.t,
            t_close: r.T,
            s: r.s,
            i: r.i,
            o: r.o,
            c: r.c,
            h: r.h,
            l: r.l,
            v: r.v,
            n: r.n,
        }
    }
}

impl FromSpecImpl<RawCandle> for HlCandle {
    open spec fn obeys_from_spec() -> bool {
        true
    }

    open spec fn from_spec(r: RawCandle) -> HlCandle {
        HlCandle {
            t: r.t,
            t_close: r.T,
            s: r.s,
            i: r.i,
            o: r.o,
            c: r.c,
            h: r.h,
            l: r.l,
            v: r.v,
            n: r.n,
        }
    }
}

/// The prices of a candle as numbers, with its open time.
#[derive(Clone, Copy, Debug, PartialEq, Eq, Structural)]
pub struct Bar {
    pub t: i64,
    pub open: Double,
    pub high: Double,
    pub low: Double,
    pub close: Double,
}

/// A price as a number; 0 where the text is none.
pub open spec fn price_of(rd: Reading, text: Seq<char>) -> Double {
    match rd(text) {
        Some(price) => price,
        None => Double::of(ZERO),
    }
}

/// The prices of a candle as numbers.
pub open spec fn bar_of(rd: Reading, candle: HlCandle) -> Bar {
    Bar {
        t: candle.t,
        open: price_of(rd, candle.o@),
        high: price_of(rd, candle.h@),
        low: price_of(rd, candle.l@),
        close: price_of(rd, candle.c@),
    }
}

impl Bar {
    /// None of the prices is zero or below: the bar can be traded on.
    pub open spec fn spec_is_usable(self) -> bool {
        !(self.close.le(Double::of(ZERO)) || self.open.le(Double::of(ZERO)) || self.high.le(
            Double::of(ZERO),
        ) || self.low.le(Double::of(ZERO)))
    }

    /// None of the prices is zero or below.
    #[verifier::when_used_as_spec(spec_is_usable)]
    pub fn is_usable(self) -> (r: bool)
        ensures
            r == self.spec_is_usable(),
    {
        let zero = Double::of(ZERO);
        !(self.close.le(zero) || self.open.le(zero) || self.high.le(zero) || self.low.le(zero))
    }
}

fn read_price<R: Fn(&String) -> Option<Double>>(text: &String, read: &R) -> (r: Double)
    requires
        answers_texts(*read),
    ensures
        forall|rd: Reading| #[trigger] reads(*read, rd) ==> r == price_of(rd, text@),
{
    match read(text) {
        Some(price) => price,
        None => Double::of(ZERO),
    }
}

impl HlCandle {
    /// The prices of the candle as numbers; 0 for a text that is none.
    pub fn bar<R: Fn(&String) -> Option<Double>>(&self, read: &R) -> (r: Bar)
        requires
            answers_texts(*read),
        ensures
            forall|rd: Reading| #[trigger] reads(*read, rd) ==> r == bar_of(rd, *self),
            r.t == self.t,
    {
        Bar {
            t: self.t,
            open: read_price(&self.o, read),
            high: read_price(&self.h, read),
            low: read_price(&self.l, read),
            close: read_price(&self.c, read),
        }
    }
}

/// `candle` is the first in `all` with its open time.
pub open spec fn is_first(all: Seq<HlCandle>, candle: HlCandle) -> bool {
    exists|k: int|
        0 <= k < all.len() && #[trigger] all[k] == candle && forall|j: int|
            0 <= j < k ==> (#[trigger] all[j]).t != candle.t
}

/// A candle with this open time is among them.
pub open spec fn has_time(candles: Seq<HlCandle>, t: i64) -> bool {
    exists|k: int| 0 <= k < candles.len() && (#[trigger] candles[k]).t == t
}

/// The open times ascend, and none occurs twice.
pub open spec fn ascending(candles: Seq<HlCandle>) -> bool {
    forall|i: int, j: int|
        0 <= i < j < candles.len() ==> (#[trigger] candles[i]).t < (#[trigger] candles[j]).t
}

/// `tidy` holds the candles of `all` in ascending order of their open times, and of
/// those that share a time the one that came first.
pub open spec fn tidies(all: Seq<HlCandle>, tidy: Seq<HlCandle>) -> bool {
    &&& ascending(tidy)
    &&& forall|i: int| 0 <= i < tidy.len() ==> is_first(all, #[trigger] tidy[i])
    &&& forall|k: int| 0 <= k < all.len() ==> has_time(tidy, (#[trigger] all[k]).t)
}

proof fn first_stays_first(all: Seq<HlCandle>, next: HlCandle, candle: HlCandle)
    requires
        is_first(all, candle),
    ensures
        is_first(all.push(next), candle),
{
    let k = choose|k: int|
        0 <= k < all.len() && #[trigger] all[k] == candle && forall|j: int|
            0 <= j < k ==> (#[trigger] all[j]).t != candle.t;
    assert(all.push(next)[k] == candle);
    assert forall|j: int| 0 <= j < k implies (#[trigger] all.push(next)[j]).t != candle.t by {
        assert(all[j].t != candle.t);
    }
}

proof fn time_moves(from: Seq<HlCandle>, to: Seq<HlCandle>, i: int, candle: HlCandle, t: i64)
    requires
        0 <= i <= from.len(),
        to == from.insert(i, candle),
        has_time(from, t),
    ensures
        has_time(to, t),
{
    let m = choose|m: int| 0 <= m < from.len() && (#[trigger] from[m]).t == t;
    if m < i {
        assert(to[m] == from[m]);
    } else {
        assert(to[m + 1] == from[m]);
    }
}

/// A candle whose time is there already changes nothing.
proof fn tidy_without(all: Seq<HlCandle>, tidy: Seq<HlCandle>, next: HlCandle)
    requires
        tidies(all, tidy),
        has_time(tidy, next.t),
    ensures
        tidies(all.push(next), tidy),
{
    assert forall|m: int| 0 <= m < tidy.len() implies is_first(
        all.push(next),
        #[trigger] tidy[m],
    ) by {
        first_stays_first(all, next, tidy[m]);
    }
    assert forall|k: int| 0 <= k < all.push(next).len() implies has_time(
        tidy,
        (#[trigger] all.push(next)[k]).t,
    ) by {
        if k < all.len() {
            assert(has_time(tidy, all[k].t));
        }
    }
}

/// A candle with a new time goes where its time belongs.
proof fn tidy_with(all: Seq<HlCandle>, tidy: Seq<HlCandle>, next: HlCandle, i: int)
    requires
        tidies(all, tidy),
        0 <= i <= tidy.len(),
        forall|m: int| 0 <= m < i ==> (#[trigger] tidy[m]).t < next.t,
        forall|m: int| i <= m < tidy.len() ==> (#[trigger] tidy[m]).t > next.t,
    ensures
        tidies(all.push(next), tidy.insert(i, next)),
{
    let longer = all.push(next);
    let after = tidy.insert(i, next);
    assert(is_first(longer, next)) by {
        assert(longer[all.len() as int] == next);
        assert forall|j: int| 0 <= j < all.len() implies (#[trigger] longer[j]).t != next.t by {
            assert(has_time(tidy, all[j].t));
        }
    }
    assert forall|m: int| 0 <= m < after.len() implies is_first(longer, #[trigger] after[m]) by {
        if m < i {
            first_stays_first(all, next, tidy[m]);
        } else if m > i {
            first_stays_first(all, next, tidy[m - 1]);
        }
    }
    assert forall|k: int| 0 <= k < longer.len() implies has_time(
        after,
        (#[trigger] longer[k]).t,
    ) by {
        if k < all.len() {
            assert(has_time(tidy, all[k].t));
            time_moves(tidy, after, i, next, all[k].t);
        } else {
            assert(after[i] == next);
        }
    }
}

/// Adds a candle that came after all the others.
fn place(tidy: &mut Vec<HlCandle>, candle: HlCandle, Ghost(all): Ghost<Seq<HlCandle>>)
    requires
        tidies(all, old(tidy)@),
    ensures
        tidies(all.push(candle), final(tidy)@),
{
    let mut i: usize = tidy.len();
    while i > 0 && tidy[i - 1].t > candle.t
        invariant
            i <= tidy.len(),
            forall|j: int| i <= j < tidy.len() ==> (#[trigger] tidy@[j]).t > candle.t,
        decreases i,
    {
        i = i - 1;
    }
    if i > 0 && tidy[i - 1].t == candle.t {
        proof {
            assert(tidy@[i - 1].t == candle.t);
            tidy_without(all, tidy@, candle);
        }
    } else {
        proof {
            assert forall|m: int| 0 <= m < i implies (#[trigger] tidy@[m]).t < candle.t by {
                assert(tidy@[i - 1].t < candle.t);
            }
            tidy_with(all, tidy@, candle, i as int);
        }
        tidy.insert(i, candle);
    }
}

/// Sorts candles by open time, and keeps the first of those that share one.
pub fn sort_and_dedup(all: Vec<HlCandle>) -> (r: Vec<HlCandle>)
    ensures
        tidies(all@, r@),
{
    let ghost given = all@;
    let mut tidy: Vec<HlCandle> = Vec::new();
    assert(given.take(0) =~= Seq::empty());
    for candle in it: all
        invariant
            it.seq() == given,
            tidies(given.take(it.index() as int), tidy@),
    {
        assert(given.take(it.index() as int).push(candle) =~= given.take(it.index() + 1));
        place(&mut tidy, candle, Ghost(given.take(it.index() as int)));
    }
    assert(given.take(given.len() as int) =~= given);
    tidy
}

/// Two firsts with one open time are the same candle.
proof fn one_first(all: Seq<HlCandle>, a: HlCandle, b: HlCandle)
    requires
        is_first(all, a),
        is_first(all, b),
        a.t == b.t,
    ensures
        a == b,
{
    let i = choose|k: int|
        0 <= k < all.len() && #[trigger] all[k] == a && forall|j: int|
            0 <= j < k ==> (#[trigger] all[j]).t != a.t;
    let j = choose|k: int|
        0 <= k < all.len() && #[trigger] all[k] == b && forall|j: int|
            0 <= j < k ==> (#[trigger] all[j]).t != b.t;
    if i < j {
        assert(all[i].t != b.t);
    } else if j < i {
        assert(all[j].t != a.t);
    }
}

proof fn same_when_same_times(a: Seq<HlCandle>, b: Seq<HlCandle>)
    requires
        ascending(a),
        ascending(b),
        forall|i: int| 0 <= i < a.len() ==> has_time(b, (#[trigger] a[i]).t),
        forall|j: int| 0 <= j < b.len() ==> has_time(a, (#[trigger] b[j]).t),
        forall|i: int, j: int|
            0 <= i < a.len() && 0 <= j < b.len() && (#[trigger] a[i]).t == (#[trigger] b[j]).t
                ==> a[i] == b[j],
    ensures
        a == b,
    decreases a.len(),
{
    if a.len() == 0 {
        if b.len() > 0 {
            assert(has_time(a, b[0].t));
        }
        assert(a =~= b);
    } else {
        assert(has_time(b, a[a.len() - 1].t));
        assert(has_time(a, b[b.len() - 1].t));
        assert(a.last().t == b.last().t);
        let a0 = a.drop_last();
        let b0 = b.drop_last();
        assert forall|i: int| 0 <= i < a0.len() implies has_time(b0, (#[trigger] a0[i]).t) by {
            assert(a[i].t < a[a.len() - 1].t);
            assert(has_time(b, a[i].t));
            let m = choose|m: int| 0 <= m < b.len() && (#[trigger] b[m]).t == a[i].t;
            assert(b0[m] == b[m]);
        }
        assert forall|j: int| 0 <= j < b0.len() implies has_time(a0, (#[trigger] b0[j]).t) by {
            assert(b[j].t < b[b.len() - 1].t);
            assert(has_time(a, b[j].t));
            let m = choose|m: int| 0 <= m < a.len() && (#[trigger] a[m]).t == b[j].t;
            assert(a0[m] == a[m]);
        }
        assert forall|i: int, j: int|
            0 <= i < a0.len() && 0 <= j < b0.len() && (#[trigger] a0[i]).t == (
            #[trigger] b0[j]).t implies a0[i] == b0[j] by {
            assert(a[i].t == b[j].t);
        }
        same_when_same_times(a0, b0);
        assert(a =~= a0.push(a.last()));
        assert(b =~= b0.push(b.last()));
    }
}

/// There is only one way to sort candles by open time and keep the first of those
/// that share one.
pub proof fn tidying_is_unique(all: Seq<HlCandle>, a: Seq<HlCandle>, b: Seq<HlCandle>)
    requires
        tidies(all, a),
        tidies(all, b),
    ensures
        a == b,
{
    assert forall|i: int| 0 <= i < a.len() implies has_time(b, (#[trigger] a[i]).t) by {
        assert(is_first(all, a[i]));
    }
    assert forall|j: int| 0 <= j < b.len() implies has_time(a, (#[trigger] b[j]).t) by {
        assert(is_first(all, b[j]));
    }
    assert forall|i: int, j: int|
        0 <= i < a.len() && 0 <= j < b.len() && (#[trigger] a[i]).t == (#[trigger] b[j]).t implies a[i]
        == b[j] by {
        one_first(all, a[i], b[j]);
    }
    same_when_same_times(a, b);
}

/// Candles that are in order already, with no time twice, stay as they are.
pub proof fn tidy_candles_stay(all: Seq<HlCandle>)
    requires
        ascending(all),
    ensures
        tidies(all, all),
{
    assert forall|i: int| 0 <= i < all.len() implies is_first(all, #[trigger] all[i]) by {
        assert forall|j: int| 0 <= j < i implies (#[trigger] all[j]).t != all[i].t by {
        }
    }
}

/// The candles of a time range, collected page by page.
#[derive(Clone, Debug)]
pub struct CandlePages {
    /// Length of a candle.
    pub interval_ms: i64,
    /// Where the next page starts.
    pub cursor: i64,
    /// Where the range ends.
    pub end_time_ms: i64,
    /// The exchange has sent an empty page.
    pub exhausted: bool,
    /// The candles so far, as they came.
    pub received: Vec<HlCandle>,
}

impl CandlePages {
    /// Another page is to be asked for.
    pub open spec fn wants_more(self) -> bool {
        !self.exhausted && self.cursor < self.end_time_ms
    }

    /// Starts collecting.
    pub fn start(interval: &str, start_time_ms: i64, end_time_ms: i64) -> (r: Result<
        CandlePages,
        IntervalError,
    >)
        requires
            interval_fits(interval@),
        ensures
            r is Ok <==> is_interval(interval@),
            r matches Ok(pages) ==> {
                &&& pages.interval_ms == interval_ms(interval@)
                &&& pages.cursor == start_time_ms
                &&& pages.end_time_ms == end_time_ms
                &&& !pages.exhausted
                &&& pages.received@ == Seq::<HlCandle>::empty()
            },
            r matches Err(IntervalError::Invalid { interval: text }) ==> !has_count(interval@)
                && text@ == interval@,
            r matches Err(IntervalError::UnknownUnit { unit }) ==> has_count(interval@) && unit@
                == unit_of(interval@),
    {
        match parse_interval_ms(interval) {
            Err(e) => Err(e),
            Ok(interval_ms) => Ok(
                CandlePages {
                    interval_ms,
                    cursor: start_time_ms,
                    end_time_ms,
                    exhausted: false,
                    received: Vec::new(),
                },
            ),
        }
    }

    /// The start and the end of the page to ask for, while one is left.
    pub fn next_page(&self) -> (r: Option<(i64, i64)>)
        ensures
            r is Some <==> self.wants_more(),
            r is Some <==> !self.exhausted && self.cursor < self.end_time_ms,
            r matches Some((start, end)) ==> start == self.cursor && end == self.end_time_ms,
    {
        if !self.exhausted && self.cursor < self.end_time_ms {
            Some((self.cursor, self.end_time_ms))
        } else {
            None
        }
    }

    /// The time after the last candle of a page fits the machine's integers.
    pub open spec fn can_take(self, page: Seq<HlCandle>) -> bool {
        page.len() > 0 ==> page.last().t + self.interval_ms <= i64::MAX && page.last().t
            + self.interval_ms >= i64::MIN
    }

    /// Where the page after this one starts.
    pub open spec fn cursor_after(self, page: Seq<HlCandle>) -> int {
        if page.len() == 0 {
            self.cursor as int
        } else {
            page.last().t + self.interval_ms
        }
    }

    /// Takes in a page.  The next one starts one candle after the last of this one;
    /// an empty page ends the collection.
    pub fn take_page(&mut self, page: Vec<HlCandle>)
        requires
            old(self).can_take(page@),
        ensures
            final(self).received@ == old(self).received@ + page@,
            final(self).exhausted == (old(self).exhausted || page@.len() == 0),
            final(self).cursor == old(self).cursor_after(page@),
            page@.len() == 0 ==> final(self).cursor == old(self).cursor,
            page@.len() > 0 ==> final(self).cursor == page@.last().t + old(self).interval_ms,
            final(self).interval_ms == old(self).interval_ms,
            final(self).end_time_ms == old(self).end_time_ms,
    {
        if page.len() == 0 {
            self.exhausted = true;
            assert(self.received@ + page@ =~= self.received@);
        } else {
            self.cursor = page[page.len() - 1].t + self.interval_ms;
            let mut page = page;
            self.received.append(&mut page);
        }
    }

    /// The collected candles in ascending order of time, each time once.
    pub fn finish(self) -> (r: Vec<HlCandle>)
        ensures
            tidies(self.received@, r@),
    {
        sort_and_dedup(self.received)
    }
}

/// Pages that are in order, each from where the one before it left off, make a whole
/// that is in order.
pub proof fn pages_follow_on(received: Seq<HlCandle>, page: Seq<HlCandle>, interval_ms: int)
    requires
        interval_ms > 0,
        ascending(received),
        ascending(page),
        received.len() > 0 && page.len() > 0 ==> page.first().t >= received.last().t + interval_ms,
    ensures
        ascending(received + page),
{
    let whole = received + page;
    assert forall|i: int, j: int| 0 <= i < j < whole.len() implies (#[trigger] whole[i]).t < (
    #[trigger] whole[j]).t by {
        let n = received.len();
        if j < n {
            assert(received[i].t < received[j].t);
        } else if i >= n {
            assert(page[i - n].t < page[j - n].t);
        } else {
            if i < n - 1 {
                assert(received[i].t < received[n - 1].t);
            }
            if j > n {
                assert(page[0].t < page[j - n].t);
            }
        }
    }
}

/// A page that holds candles from its start on brings the next start nearer to the
/// end, so that the collection comes to an end.
pub proof fn pages_advance(pages: CandlePages, page: Seq<HlCandle>)
    requires
        pages.interval_ms > 0,
        page.len() > 0,
        page.last().t >= pages.cursor,
    ensures
        pages.cursor_after(page) > pages.cursor,
{
}

/// A candle's prices are the numbers that its texts read as, and 0 where a text reads as
/// none; its time is its open time.
pub proof fn prices_are_read_from_their_own_texts(rd: Reading, candle: HlCandle)
    ensures
        bar_of(rd, candle).t == candle.t,
        rd(candle.o@) matches Some(x) ==> bar_of(rd, candle).open == x,
        rd(candle.h@) matches Some(x) ==> bar_of(rd, candle).high == x,
        rd(candle.l@) matches Some(x) ==> bar_of(rd, candle).low == x,
        rd(candle.c@) matches Some(x) ==> bar_of(rd, candle).close == x,
        rd(candle.o@) is None ==> bar_of(rd, candle).open == Double::of(ZERO),
        rd(candle.h@) is None ==> bar_of(rd, candle).high == Double::of(ZERO),
        rd(candle.l@) is None ==> bar_of(rd, candle).low == Double::of(ZERO),
        rd(candle.c@) is None ==> bar_of(rd, candle).close == Double::of(ZERO),
{
}

/// Tidy candles ascend in time, each is one of those given with none of its time before it,
/// and each time given is there.
pub proof fn tidy_candles_are_the_first_of_their_times(
    all: Seq<HlCandle>,
    tidy: Seq<HlCandle>,
    i: int,
    k: int,
)
    requires
        tidies(all, tidy),
        0 <= i < tidy.len(),
        0 <= k < all.len(),
    ensures
        forall|m: int| 0 <= m < i ==> (#[trigger] tidy[m]).t < tidy[i].t,
        exists|m: int|
            0 <= m < all.len() && #[trigger] all[m] == tidy[i] && forall|j: int|
                0 <= j < m ==> (#[trigger] all[j]).t != tidy[i].t,
        exists|m: int| 0 <= m < tidy.len() && (#[trigger] tidy[m]).t == all[k].t,
{
    assert(is_first(all, tidy[i]));
    assert(has_time(tidy, all[k].t));
}

/// A bar can be traded on unless one of its four prices is zero or below.
pub proof fn bars_are_usable_unless_a_price_is_not_positive(bar: Bar)
    ensures
        !bar.is_usable() <==> bar.open.le(Double::of(ZERO)) || bar.high.le(Double::of(ZERO))
            || bar.low.le(Double::of(ZERO)) || bar.close.le(Double::of(ZERO)),
{
}

} // verus!
