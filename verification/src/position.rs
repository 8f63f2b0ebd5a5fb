//! An open position of a backtest.
use crate::number::{
    answers, computes, minus, over, plus, times, Arithmetic, Double, Op, HUNDRED, ZERO,
};
use vstd::prelude::*;

verus! {

/// Bits of 3600.
pub const SECS_PER_HOUR: u64 = 0x40ac_2000_0000_0000;

/// An open position.
#[derive(Clone, Debug)]
pub struct BtPosition {
    pub symbol: String,
    pub is_long: bool,
    pub entry_price: Double,
    pub current_price: Double,
    /// The best price seen: the highest for a long position, the lowest for a short one.
    pub peak_price: Double,
    pub size_usd: Double,
    pub leverage: Double,
    pub open_time_ms: i64,
    pub entry_fee: Double,
    pub accrued_borrow_fee: Double,
    /// Borrow fee rate per hour, on `size_usd`.
    pub borrow_rate_hourly: Double,
}

/// What a position holds.
pub struct PositionView {
    pub symbol: Seq<char>,
    pub is_long: bool,
    pub entry_price: Double,
    pub current_price: Double,
    pub peak_price: Double,
    pub size_usd: Double,
    pub leverage: Double,
    pub open_time_ms: i64,
    pub entry_fee: Double,
    pub accrued_borrow_fee: Double,
    pub borrow_rate_hourly: Double,
}

impl View for BtPosition {
    type V = PositionView;

    open spec fn view(&self) -> PositionView {
        PositionView {
            symbol: self.symbol@,
            is_long: self.is_long,
            entry_price: self.entry_price,
            current_price: self.current_price,
            peak_price: self.peak_price,
            size_usd: self.size_usd,
            leverage: self.leverage,
            open_time_ms: self.open_time_ms,
            entry_fee: self.entry_fee,
            accrued_borrow_fee: self.accrued_borrow_fee,
            borrow_rate_hourly: self.borrow_rate_hourly,
        }
    }
}

/// Whole seconds from `open_ms` to `now_ms`; 0 if that lies in the past.
pub open spec fn secs_between(open_ms: int, now_ms: int) -> int {
    if now_ms <= open_ms {
        0
    } else {
        (now_ms - open_ms) / 1000
    }
}

/// The time from `open_ms` to `now_ms` fits the machine's integers.
pub open spec fn span_fits(open_ms: int, now_ms: int) -> bool {
    i64::MIN <= now_ms - open_ms <= i64::MAX
}

impl PositionView {
    /// Profit in percent of the entry price; 0 if there is no entry price.
    pub open spec fn pnl_pct(self, ar: Arithmetic) -> Double {
        if self.entry_price.equals(Double::of(ZERO)) {
            Double::of(ZERO)
        } else if self.is_long {
            times(
                ar,
                over(ar, minus(ar, self.current_price, self.entry_price), self.entry_price),
                Double::of(HUNDRED),
            )
        } else {
            times(
                ar,
                over(ar, minus(ar, self.entry_price, self.current_price), self.entry_price),
                Double::of(HUNDRED),
            )
        }
    }

    /// Profit in dollars.
    pub open spec fn pnl_usd(self, ar: Arithmetic) -> Double {
        over(ar, times(ar, self.size_usd, self.pnl_pct(ar)), Double::of(HUNDRED))
    }

    /// The best price once `price` has been seen.
    pub open spec fn peak_with(self, price: Double) -> Double {
        if self.is_long {
            if price.gt(self.peak_price) {
                price
            } else {
                self.peak_price
            }
        } else if self.peak_price.equals(Double::of(ZERO)) || price.lt(self.peak_price) {
            price
        } else {
            self.peak_price
        }
    }

    /// The borrow fee for a stretch of this many seconds.
    pub open spec fn borrow_fee(self, ar: Arithmetic, secs: Double) -> Double {
        times(
            ar,
            times(ar, self.size_usd, self.borrow_rate_hourly),
            over(ar, secs, Double::of(SECS_PER_HOUR)),
        )
    }

    /// The position after a candle of this many seconds that closed at `price`.
    pub open spec fn updated(self, ar: Arithmetic, price: Double, secs: Double) -> PositionView {
        PositionView {
            current_price: price,
            peak_price: self.peak_with(price),
            accrued_borrow_fee: plus(ar, self.accrued_borrow_fee, self.borrow_fee(ar, secs)),
            ..self
        }
    }
}

impl BtPosition {
    /// Profit in percent of the entry price.
    pub fn unrealized_pnl_pct<F: Fn(Op) -> Double>(&self, calc: &F) -> (r: Double)
        requires
            answers(*calc),
        ensures
            forall|ar: Arithmetic| #[trigger] computes(*calc, ar) ==> r == self@.pnl_pct(ar),
    {
        if self.entry_price.equals(Double::of(ZERO)) {
            return Double::of(ZERO);
        }
        let gain = if self.is_long {
            calc(Op::Sub(self.current_price, self.entry_price))
        } else {
            calc(Op::Sub(self.entry_price, self.current_price))
        };
        let share = calc(Op::Div(gain, self.entry_price));
        calc(Op::Mul(share, Double::of(HUNDRED)))
    }

    /// Profit in dollars.
    pub fn unrealized_pnl_usd<F: Fn(Op) -> Double>(&self, calc: &F) -> (r: Double)
        requires
            answers(*calc),
        ensures
            forall|ar: Arithmetic| #[trigger] computes(*calc, ar) ==> r == self@.pnl_usd(ar),
    {
        let pct = self.unrealized_pnl_pct(calc);
        let scaled = calc(Op::Mul(self.size_usd, pct));
        calc(Op::Div(scaled, Double::of(HUNDRED)))
    }

    /// Whole seconds since the position was opened; 0 for an earlier time.
    pub fn hold_secs(&self, now_ms: i64) -> (r: u64)
        requires
            span_fits(self.open_time_ms as int, now_ms as int),
        ensures
            r == secs_between(self.open_time_ms as int, now_ms as int),
    {
        let held: i64 = now_ms - self.open_time_ms;
        if held <= 0 {
            0
        } else {
            (held / 1000) as u64
        }
    }

    /// Takes in a candle that closed at `price`: the best price follows it, and
    /// the borrow fee for the candle's time is added.
    pub fn update_price<F: Fn(Op) -> Double>(
        &mut self,
        price: Double,
        interval_secs: Double,
        calc: &F,
    )
        requires
            answers(*calc),
        ensures
            forall|ar: Arithmetic| #[trigger]
                computes(*calc, ar) ==> final(self)@ == old(self)@.updated(
                    ar,
                    price,
                    interval_secs,
                ),
            final(self)@ == (PositionView {
                accrued_borrow_fee: final(self)@.accrued_borrow_fee,
                current_price: price,
                peak_price: old(self)@.peak_with(price),
                ..old(self)@
            }),
    {
        self.current_price = price;
        if self.is_long {
            if price.gt(self.peak_price) {
                self.peak_price = price;
            }
        } else if self.peak_price.equals(Double::of(ZERO)) || price.lt(self.peak_price) {
            self.peak_price = price;
        }
        let hours = calc(Op::Div(interval_secs, Double::of(SECS_PER_HOUR)));
        let hourly = calc(Op::Mul(self.size_usd, self.borrow_rate_hourly));
        let fee = calc(Op::Mul(hourly, hours));
        self.accrued_borrow_fee = calc(Op::Add(self.accrued_borrow_fee, fee));
    }

    /// The fees that the position has cost so far.
    pub fn total_fees<F: Fn(Op) -> Double>(&self, calc: &F) -> (r: Double)
        requires
            answers(*calc),
        ensures
            forall|ar: Arithmetic| #[trigger]
                computes(*calc, ar) ==> r == plus(ar, self.entry_fee, self.accrued_borrow_fee),
    {
        calc(Op::Add(self.entry_fee, self.accrued_borrow_fee))
    }
}

/// The arithmetic treats both signs alike: a difference taken the other way round, and
/// a quotient or product with the other sign, has the opposite value.
pub open spec fn keeps_signs(ar: Arithmetic) -> bool {
    &&& forall|a: Double, b: Double|
        #![trigger minus(ar, a, b)]
        a.is_finite() && b.is_finite() ==> minus(ar, a, b).is_opposite(minus(ar, b, a))
    &&& forall|a: Double, b: Double, c: Double|
        #![trigger over(ar, a, c), over(ar, b, c)]
        a.is_opposite(b) && c.is_finite() && !c.equals(Double::of(ZERO)) ==> over(
            ar,
            a,
            c,
        ).is_opposite(over(ar, b, c))
    &&& forall|a: Double, b: Double, c: Double|
        #![trigger times(ar, a, c), times(ar, b, c)]
        a.is_opposite(b) && c.is_finite() && !c.equals(Double::of(ZERO)) ==> times(
            ar,
            a,
            c,
        ).is_opposite(times(ar, b, c))
}

/// What a long position gains, a short one on the same prices loses: their profits in
/// percent are opposite.  Both are 0 where there is no entry price, or where the price
/// has not moved.
pub proof fn sides_mirror_each_other(ar: Arithmetic, long: PositionView, short: PositionView)
    requires
        keeps_signs(ar),
        long.is_long,
        short == (PositionView { is_long: false, ..long }),
        long.entry_price.is_finite(),
        long.current_price.is_finite(),
    ensures
        long.pnl_pct(ar).is_opposite(short.pnl_pct(ar)),
        long.entry_price.equals(Double::of(ZERO)) ==> long.pnl_pct(ar) == Double::of(ZERO)
            && short.pnl_pct(ar) == Double::of(ZERO),
        long.current_price.equals(long.entry_price) ==> long.pnl_pct(ar).equals(Double::of(ZERO))
            && short.pnl_pct(ar).equals(Double::of(ZERO)),
{
    let entry = long.entry_price;
    let now = long.current_price;
    let gain = minus(ar, now, entry);
    let loss = minus(ar, entry, now);
    assert(gain.is_opposite(loss));
    if !entry.equals(Double::of(ZERO)) {
        let up = over(ar, gain, entry);
        let down = over(ar, loss, entry);
        assert(up.is_opposite(down));
        assert(times(ar, up, Double::of(HUNDRED)).is_opposite(
            times(ar, down, Double::of(HUNDRED)),
        ));
        if now.equals(entry) {
            assert(now == entry);
        }
    }
}

/// The best price of a position is never worse than a price it has taken in, nor than
/// the best before: a long position's is not below either, a short one's not above.
pub proof fn peak_is_the_best_price(p: PositionView, price: Double)
    requires
        !p.peak_price.is_nan(),
        !price.is_nan(),
        !p.peak_price.equals(Double::of(ZERO)),
    ensures
        p.is_long ==> price.le(p.peak_with(price)) && p.peak_price.le(p.peak_with(price)),
        !p.is_long ==> p.peak_with(price).le(price) && p.peak_with(price).le(p.peak_price),
        p.peak_with(price) == price || p.peak_with(price) == p.peak_price,
{
}

/// The model of a position says what the position holds, field by field.
pub proof fn position_views_are_faithful(p: BtPosition)
    ensures
        p@.symbol == p.symbol@,
        p@.is_long == p.is_long,
        p@.entry_price == p.entry_price,
        p@.current_price == p.current_price,
        p@.peak_price == p.peak_price,
        p@.size_usd == p.size_usd,
        p@.leverage == p.leverage,
        p@.open_time_ms == p.open_time_ms,
        p@.entry_fee == p.entry_fee,
        p@.accrued_borrow_fee == p.accrued_borrow_fee,
        p@.borrow_rate_hourly == p.borrow_rate_hourly,
{
}

} // verus!
