//! What levels, profits and fees come to.
//!
//! Each law holds for every arithmetic that rounds.  Where a law speaks of exact steps,
//! the doubles that it takes as further parameters are the true results on the way.
use crate::cell::gross_at;
use crate::exits::level_exit;
use crate::number::{Arithmetic, Double, Op, HUNDRED, ONE, ZERO};
use crate::position::{PositionView, SECS_PER_HOUR};
use crate::strategy::ExitReason;
use crate::value::{
    bounds_survive_rounding, comparisons_go_by_worth, constants_are_worth_their_names,
    difference_is_met, flipped, flipping_changes_the_sign, is_rounding, is_worth, product_is_met,
    quotient_is_met, rounds, scale, signs_survive_rounding, sum_is_met,
};
use vstd::prelude::*;

verus! {

/// `level` lies `pct` percent of `entry` away from it, upwards or downwards, and is
/// reached in exact steps: a hundredth of the percentage, one and that, and the price
/// times that.
pub open spec fn lies_off(
    entry: Double,
    pct: Double,
    upwards: bool,
    share: Double,
    factor: Double,
    level: Double,
) -> bool {
    &&& entry.is_finite() && pct.is_finite() && share.is_finite() && factor.is_finite()
    &&& level.is_finite()
    &&& 100 * share.units() == pct.units()
    &&& factor.units() == (if upwards {
        scale() + share.units()
    } else {
        scale() - share.units()
    })
    &&& level.units() * scale() == entry.units() * factor.units()
}

proof fn off_by_percent(
    entry: Double,
    pct: Double,
    upwards: bool,
    share: Double,
    factor: Double,
    level: Double,
)
    requires
        lies_off(entry, pct, upwards, share, factor, level),
    ensures
        100 * scale() * (level.units() - entry.units()) == (if upwards {
            entry.units() * pct.units()
        } else {
            -(entry.units() * pct.units())
        }),
{
    let (e, p, s, l, u) = (
        entry.units(),
        pct.units(),
        share.units(),
        level.units(),
        scale(),
    );
    if upwards {
        assert(100 * u * (l - e) == e * p) by (nonlinear_arith)
            requires
                100 * s == p,
                l * u == e * (u + s),
        ;
    } else {
        assert(100 * u * (l - e) == -(e * p)) by (nonlinear_arith)
            requires
                100 * s == p,
                l * u == e * (u - s),
        ;
    }
}

proof fn level_is_met(
    ar: Arithmetic,
    entry: Double,
    pct: Double,
    upwards: bool,
    share: Double,
    factor: Double,
    level: Double,
)
    requires
        is_rounding(ar),
        lies_off(entry, pct, upwards, share, factor, level),
    ensures
        is_worth(
            ar(
                Op::Mul(
                    entry,
                    if upwards {
                        ar(Op::Add(Double::of(ONE), ar(Op::Div(pct, Double::of(HUNDRED)))))
                    } else {
                        ar(Op::Sub(Double::of(ONE), ar(Op::Div(pct, Double::of(HUNDRED)))))
                    },
                ),
            ),
            level,
        ),
{
    constants_are_worth_their_names();
    let (s, u) = (share.units(), scale());
    assert(s * (100 * u) == (100 * s) * u) by (nonlinear_arith);
    quotient_is_met(ar, pct, Double::of(HUNDRED), share);
    let part = ar(Op::Div(pct, Double::of(HUNDRED)));
    if upwards {
        sum_is_met(ar, Double::of(ONE), part, factor);
        product_is_met(ar, entry, ar(Op::Add(Double::of(ONE), part)), level);
    } else {
        difference_is_met(ar, Double::of(ONE), part, factor);
        product_is_met(ar, entry, ar(Op::Sub(Double::of(ONE), part)), level);
    }
}

/// A position is closed inside a candle just where the candle's range reaches the price
/// that lies the stop-loss percentage of the entry price on the losing side of it, and
/// then at that price; or else where it reaches the price that lies the take-profit
/// percentage on the winning side, and then at that price; and nowhere else.
pub proof fn levels_scale_with_the_entry_price(
    ar: Arithmetic,
    is_long: bool,
    entry: Double,
    tp_pct: Double,
    sl_pct: Double,
    low: Double,
    high: Double,
    tp_share: Double,
    tp_factor: Double,
    tp: Double,
    sl_share: Double,
    sl_factor: Double,
    sl: Double,
)
    requires
        is_rounding(ar),
        lies_off(entry, tp_pct, is_long, tp_share, tp_factor, tp),
        lies_off(entry, sl_pct, !is_long, sl_share, sl_factor, sl),
        entry.units() > 0,
        !low.is_nan() && low.units() > 0,
        !high.is_nan() && high.units() > 0,
    ensures
        100 * scale() * (tp.units() - entry.units()) == (if is_long {
            entry.units() * tp_pct.units()
        } else {
            -(entry.units() * tp_pct.units())
        }),
        100 * scale() * (sl.units() - entry.units()) == (if is_long {
            -(entry.units() * sl_pct.units())
        } else {
            entry.units() * sl_pct.units()
        }),
        ({
            let stopped = sl_pct.units() > 0 && if is_long {
                low.units() <= sl.units()
            } else {
                high.units() >= sl.units()
            };
            let taken = tp_pct.units() > 0 && if is_long {
                high.units() >= tp.units()
            } else {
                low.units() <= tp.units()
            };
            match level_exit(ar, is_long, entry, tp_pct, sl_pct, low, high) {
                Some((reason, price)) => if stopped {
                    reason == ExitReason::StopLoss && is_worth(price, sl)
                } else {
                    taken && reason == ExitReason::TakeProfit && is_worth(price, tp)
                },
                None => !stopped && !taken,
            }
        }),
{
    off_by_percent(entry, tp_pct, is_long, tp_share, tp_factor, tp);
    off_by_percent(entry, sl_pct, !is_long, sl_share, sl_factor, sl);
    level_is_met(ar, entry, tp_pct, is_long, tp_share, tp_factor, tp);
    level_is_met(ar, entry, sl_pct, !is_long, sl_share, sl_factor, sl);
    constants_are_worth_their_names();
    let zero = Double::of(ZERO);
    comparisons_go_by_worth(entry, zero);
    comparisons_go_by_worth(low, zero);
    comparisons_go_by_worth(high, zero);
    comparisons_go_by_worth(tp_pct, zero);
    comparisons_go_by_worth(sl_pct, zero);
    let up = ar(
        Op::Mul(entry, ar(Op::Add(
            Double::of(ONE),
            ar(Op::Div(if is_long { tp_pct } else { sl_pct }, Double::of(HUNDRED))),
        ))),
    );
    let down = ar(
        Op::Mul(entry, ar(Op::Sub(
            Double::of(ONE),
            ar(Op::Div(if is_long { sl_pct } else { tp_pct }, Double::of(HUNDRED))),
        ))),
    );
    comparisons_go_by_worth(high, up);
    comparisons_go_by_worth(low, down);
}

/// Whatever the arithmetic, an exit at a level fills at one times the entry price, more or
/// less by the percentage over a hundred, and only at a price that the range reaches.
pub proof fn level_exits_fill_where_the_range_reaches(
    ar: Arithmetic,
    is_long: bool,
    entry: Double,
    tp_pct: Double,
    sl_pct: Double,
    low: Double,
    high: Double,
)
    ensures
        level_exit(ar, is_long, entry, tp_pct, sl_pct, low, high) matches Some((reason, price)) ==> {
            let pct = if reason == ExitReason::StopLoss {
                sl_pct
            } else {
                tp_pct
            };
            let downwards = is_long == (reason == ExitReason::StopLoss);
            &&& reason == ExitReason::StopLoss || reason == ExitReason::TakeProfit
            &&& pct.gt(Double::of(ZERO))
            &&& downwards ==> low.le(price) && price == ar(
                Op::Mul(
                    entry,
                    ar(Op::Sub(Double::of(ONE), ar(Op::Div(pct, Double::of(HUNDRED))))),
                ),
            )
            &&& !downwards ==> high.ge(price) && price == ar(
                Op::Mul(
                    entry,
                    ar(Op::Add(Double::of(ONE), ar(Op::Div(pct, Double::of(HUNDRED))))),
                ),
            )
        },
{
}

/// A candle whose range holds that of another closes a position wherever the other does.
pub proof fn wider_candles_close_no_less(
    ar: Arithmetic,
    is_long: bool,
    entry: Double,
    tp_pct: Double,
    sl_pct: Double,
    low: Double,
    high: Double,
    lower: Double,
    higher: Double,
)
    requires
        lower.le(low),
        high.le(higher),
        !lower.le(Double::of(ZERO)),
        level_exit(ar, is_long, entry, tp_pct, sl_pct, low, high) is Some,
    ensures
        level_exit(ar, is_long, entry, tp_pct, sl_pct, lower, higher) is Some,
        level_exit(ar, is_long, entry, tp_pct, sl_pct, low, high) matches Some((reason, price)) && (
        reason == ExitReason::StopLoss ==> level_exit(
            ar,
            is_long,
            entry,
            tp_pct,
            sl_pct,
            lower,
            higher,
        ) == Some((reason, price))),
{
}

/// How far the price has moved in a position's favour, in units.
pub open spec fn favour(is_long: bool, from: Double, to: Double) -> int {
    if is_long {
        to.units() - from.units()
    } else {
        from.units() - to.units()
    }
}

/// The gross profit of a position is its size times the move in its favour over the entry
/// price; here where the move, the size times it, and that over the entry price are
/// doubles.
pub proof fn gross_profit_is_the_share_of_the_move(
    ar: Arithmetic,
    p: PositionView,
    price: Double,
    moved: Double,
    scaled: Double,
    gross: Double,
)
    requires
        is_rounding(ar),
        p.entry_price.is_finite() && p.size_usd.is_finite() && price.is_finite(),
        moved.is_finite() && scaled.is_finite() && gross.is_finite(),
        p.entry_price.units() != 0,
        moved.units() == favour(p.is_long, p.entry_price, price),
        scaled.units() * scale() == p.size_usd.units() * moved.units(),
        gross.units() * p.entry_price.units() == scaled.units() * scale(),
    ensures
        is_worth(gross_at(ar, p, price), gross),
        gross_at(ar, p, price).units() * p.entry_price.units() == p.size_usd.units() * favour(
            p.is_long,
            p.entry_price,
            price,
        ),
{
    let change = if p.is_long {
        ar(Op::Sub(price, p.entry_price))
    } else {
        ar(Op::Sub(p.entry_price, price))
    };
    if p.is_long {
        difference_is_met(ar, price, p.entry_price, moved);
    } else {
        difference_is_met(ar, p.entry_price, price, moved);
    }
    product_is_met(ar, p.size_usd, change, scaled);
    quotient_is_met(ar, ar(Op::Mul(p.size_usd, change)), p.entry_price, gross);
}

/// A position that is closed at a worse price than it was opened at makes no profit, and
/// one that is closed at a better price makes no loss; at the same price it makes neither.
/// The doubles `most` and `top` bound the prices, and the size times them.
pub proof fn gross_profit_has_the_sign_of_the_move(
    ar: Arithmetic,
    p: PositionView,
    price: Double,
    most: Double,
    top: Double,
)
    requires
        is_rounding(ar),
        p.entry_price.is_finite() && p.size_usd.is_finite() && price.is_finite(),
        most.is_finite() && top.is_finite(),
        0 < p.entry_price.units() <= most.units(),
        0 < price.units() <= most.units(),
        0 <= p.size_usd.units(),
        p.size_usd.units() * most.units() <= top.units() * scale(),
    ensures
        favour(p.is_long, p.entry_price, price) <= 0 ==> gross_at(ar, p, price).le(
            Double::of(ZERO),
        ),
        favour(p.is_long, p.entry_price, price) >= 0 ==> gross_at(ar, p, price).ge(
            Double::of(ZERO),
        ),
{
    let (entry, size) = (p.entry_price, p.size_usd);
    let moved = favour(p.is_long, entry, price);
    let change = if p.is_long {
        ar(Op::Sub(price, entry))
    } else {
        ar(Op::Sub(entry, price))
    };
    constants_are_worth_their_names();
    flipping_changes_the_sign(most);
    flipping_changes_the_sign(top);
    assert(rounds(moved, 1, change));
    bounds_survive_rounding(moved, 1, change, flipped(most), most);
    signs_survive_rounding(moved, 1, change);
    comparisons_go_by_worth(change, Double::of(ZERO));
    let scaled = ar(Op::Mul(size, change));
    let (s, c, m, t, u) = (size.units(), change.units(), most.units(), top.units(), scale());
    assert(-(t * u) <= s * c <= t * u) by (nonlinear_arith)
        requires
            0 <= s,
            -m <= c <= m,
            s * m <= t * u,
    ;
    assert((-t) * u == -(t * u)) by (nonlinear_arith);
    bounds_survive_rounding(s * c, u, scaled, flipped(top), top);
    signs_survive_rounding(s * c, u, scaled);
    comparisons_go_by_worth(scaled, Double::of(ZERO));
    let v = scaled.units();
    assert((c <= 0 ==> s * c <= 0) && (c >= 0 ==> s * c >= 0)) by (nonlinear_arith)
        requires
            0 <= s,
    ;
    assert((v <= 0 ==> v * u <= 0) && (v >= 0 ==> v * u >= 0)) by (nonlinear_arith)
        requires
            0 < u,
    ;
    signs_survive_rounding(v * u, entry.units(), ar(Op::Div(scaled, entry)));
}

/// The arithmetic treats both signs alike, on either side of a product.
pub open spec fn mirrors(ar: Arithmetic) -> bool {
    &&& forall|a: Double, b: Double|
        a.is_finite() && b.is_finite() ==> (#[trigger] ar(Op::Sub(a, b))).is_opposite(
            ar(Op::Sub(b, a)),
        )
    &&& forall|a: Double, b: Double, c: Double|
        a.is_opposite(b) && c.is_finite() && c.units() != 0 ==> (#[trigger] ar(
            Op::Mul(c, a),
        )).is_opposite(#[trigger] ar(Op::Mul(c, b)))
    &&& forall|a: Double, b: Double, c: Double|
        a.is_opposite(b) && c.is_finite() && c.units() != 0 ==> (#[trigger] ar(
            Op::Div(a, c),
        )).is_opposite(#[trigger] ar(Op::Div(b, c)))
}

/// What a long position gains, a short one on the same prices loses.
pub proof fn gross_profits_mirror_each_other(
    ar: Arithmetic,
    long: PositionView,
    short: PositionView,
    price: Double,
)
    requires
        mirrors(ar),
        long.is_long,
        short == (PositionView { is_long: false, ..long }),
        long.entry_price.is_finite() && long.entry_price.units() != 0,
        long.size_usd.is_finite() && long.size_usd.units() != 0,
        price.is_finite(),
    ensures
        gross_at(ar, long, price).is_opposite(gross_at(ar, short, price)),
{
    let gain = ar(Op::Sub(price, long.entry_price));
    let loss = ar(Op::Sub(long.entry_price, price));
    assert(gain.is_opposite(loss));
    assert(ar(Op::Mul(long.size_usd, gain)).is_opposite(ar(Op::Mul(long.size_usd, loss))));
}

/// The profit in percent is a hundred times the move in the position's favour over the
/// entry price, and the profit in dollars is that share of the size; here where every
/// step is a double.
pub proof fn open_profit_is_the_share_of_the_move(
    ar: Arithmetic,
    p: PositionView,
    moved: Double,
    share: Double,
    pct: Double,
    scaled: Double,
    usd: Double,
)
    requires
        is_rounding(ar),
        p.entry_price.is_finite() && p.current_price.is_finite() && p.size_usd.is_finite(),
        moved.is_finite() && share.is_finite() && pct.is_finite() && scaled.is_finite(),
        usd.is_finite(),
        p.entry_price.units() != 0,
        moved.units() == favour(p.is_long, p.entry_price, p.current_price),
        share.units() * p.entry_price.units() == moved.units() * scale(),
        pct.units() == 100 * share.units(),
        scaled.units() * scale() == p.size_usd.units() * pct.units(),
        100 * usd.units() == scaled.units(),
    ensures
        is_worth(p.pnl_pct(ar), pct),
        is_worth(p.pnl_usd(ar), usd),
        p.pnl_pct(ar).units() * p.entry_price.units() == 100 * scale() * favour(
            p.is_long,
            p.entry_price,
            p.current_price,
        ),
        p.pnl_usd(ar).units() * p.entry_price.units() == p.size_usd.units() * favour(
            p.is_long,
            p.entry_price,
            p.current_price,
        ),
{
    constants_are_worth_their_names();
    let (entry, now) = (p.entry_price, p.current_price);
    comparisons_go_by_worth(entry, Double::of(ZERO));
    let change = if p.is_long {
        ar(Op::Sub(now, entry))
    } else {
        ar(Op::Sub(entry, now))
    };
    if p.is_long {
        difference_is_met(ar, now, entry, moved);
    } else {
        difference_is_met(ar, entry, now, moved);
    }
    quotient_is_met(ar, change, entry, share);
    let part = ar(Op::Div(change, entry));
    let (e, m, h, c, z, d, s, u) = (
        entry.units(),
        moved.units(),
        share.units(),
        pct.units(),
        p.size_usd.units(),
        usd.units(),
        scaled.units(),
        scale(),
    );
    assert(c * u == h * (100 * u)) by (nonlinear_arith)
        requires
            c == 100 * h,
    ;
    product_is_met(ar, part, Double::of(HUNDRED), pct);
    product_is_met(ar, p.size_usd, p.pnl_pct(ar), scaled);
    assert(d * (100 * u) == s * u) by (nonlinear_arith)
        requires
            100 * d == s,
    ;
    quotient_is_met(ar, ar(Op::Mul(p.size_usd, p.pnl_pct(ar))), Double::of(HUNDRED), usd);
    assert(c * e == 100 * u * m) by (nonlinear_arith)
        requires
            h * e == m * u,
            c == 100 * h,
    ;
    assert(u * (d * e) == u * (z * m)) by (nonlinear_arith)
        requires
            c * e == 100 * u * m,
            s * u == z * c,
            100 * d == s,
    ;
    assert(d * e == z * m) by (nonlinear_arith)
        requires
            u * (d * e) == u * (z * m),
            u > 0,
    ;
}

/// The fee that an open position accrues on a candle is its size times the hourly rate
/// times the hours of the candle; here where every step is a double.
pub proof fn borrow_fees_go_by_size_rate_and_time(
    ar: Arithmetic,
    p: PositionView,
    price: Double,
    secs: Double,
    hourly: Double,
    hours: Double,
    fee: Double,
    total: Double,
)
    requires
        is_rounding(ar),
        p.size_usd.is_finite() && p.borrow_rate_hourly.is_finite() && secs.is_finite(),
        p.accrued_borrow_fee.is_finite(),
        hourly.is_finite() && hours.is_finite() && fee.is_finite() && total.is_finite(),
        hourly.units() * scale() == p.size_usd.units() * p.borrow_rate_hourly.units(),
        3600 * hours.units() == secs.units(),
        fee.units() * scale() == hourly.units() * hours.units(),
        total.units() == p.accrued_borrow_fee.units() + fee.units(),
    ensures
        is_worth(p.updated(ar, price, secs).accrued_borrow_fee, total),
        3600 * scale() * scale() * (p.updated(ar, price, secs).accrued_borrow_fee.units()
            - p.accrued_borrow_fee.units()) == p.size_usd.units() * p.borrow_rate_hourly.units()
            * secs.units(),
{
    constants_are_worth_their_names();
    let (z, r, h, o, f, c, u) = (
        p.size_usd.units(),
        p.borrow_rate_hourly.units(),
        hourly.units(),
        hours.units(),
        fee.units(),
        secs.units(),
        scale(),
    );
    assert(o * (3600 * u) == c * u) by (nonlinear_arith)
        requires
            3600 * o == c,
    ;
    quotient_is_met(ar, secs, Double::of(SECS_PER_HOUR), hours);
    product_is_met(ar, p.size_usd, p.borrow_rate_hourly, hourly);
    let by_hour = ar(Op::Mul(p.size_usd, p.borrow_rate_hourly));
    let length = ar(Op::Div(secs, Double::of(SECS_PER_HOUR)));
    product_is_met(ar, by_hour, length, fee);
    sum_is_met(ar, p.accrued_borrow_fee, ar(Op::Mul(by_hour, length)), total);
    assert(3600 * u * u * f == z * r * c) by (nonlinear_arith)
        requires
            h * u == z * r,
            3600 * o == c,
            f * u == h * o,
    ;
}

/// What a position accrues on a candle goes by its size, its rate and the candle's length
/// and by nothing else: not by its side, nor by any price.
pub proof fn borrow_fees_know_no_side(
    ar: Arithmetic,
    p: PositionView,
    q: PositionView,
    price: Double,
    other: Double,
    secs: Double,
)
    requires
        p.size_usd == q.size_usd,
        p.borrow_rate_hourly == q.borrow_rate_hourly,
        p.accrued_borrow_fee == q.accrued_borrow_fee,
    ensures
        p.updated(ar, price, secs).accrued_borrow_fee == q.updated(
            ar,
            other,
            secs,
        ).accrued_borrow_fee,
        p.updated(ar, price, secs).accrued_borrow_fee == ar(
            Op::Add(
                p.accrued_borrow_fee,
                ar(
                    Op::Mul(
                        ar(Op::Mul(p.size_usd, p.borrow_rate_hourly)),
                        ar(Op::Div(secs, Double::of(SECS_PER_HOUR))),
                    ),
                ),
            ),
        ),
{
}

/// A candle changes nothing of a position but its price, its best price and its fee.
pub proof fn candles_leave_the_rest_of_a_position(
    ar: Arithmetic,
    p: PositionView,
    price: Double,
    secs: Double,
)
    ensures
        ({
            let after = p.updated(ar, price, secs);
            &&& after.current_price == price
            &&& after.symbol == p.symbol
            &&& after.is_long == p.is_long
            &&& after.entry_price == p.entry_price
            &&& after.size_usd == p.size_usd
            &&& after.leverage == p.leverage
            &&& after.open_time_ms == p.open_time_ms
            &&& after.entry_fee == p.entry_fee
            &&& after.borrow_rate_hourly == p.borrow_rate_hourly
            &&& after.peak_price == price || after.peak_price == p.peak_price
        }),
        p.is_long ==> (p.updated(ar, price, secs).peak_price == price <==> price.gt(p.peak_price)
            || price == p.peak_price),
        !p.is_long ==> (p.updated(ar, price, secs).peak_price == price <==> price.lt(p.peak_price)
            || price == p.peak_price || p.peak_price.equals(Double::of(ZERO))),
{
}

/// Whatever the arithmetic, a candle closes a position at its stop-loss price wherever its
/// range reaches that, at its take-profit price wherever it reaches only that, and leaves it
/// open otherwise; without prices above zero it leaves it open.
pub proof fn candles_close_positions_just_at_their_levels(
    ar: Arithmetic,
    is_long: bool,
    entry: Double,
    tp_pct: Double,
    sl_pct: Double,
    low: Double,
    high: Double,
)
    ensures
        ({
            let (zero, one, hundred) = (Double::of(ZERO), Double::of(ONE), Double::of(HUNDRED));
            let up = ar(
                Op::Mul(
                    entry,
                    ar(
                        Op::Add(
                            one,
                            ar(
                                Op::Div(
                                    if is_long {
                                        tp_pct
                                    } else {
                                        sl_pct
                                    },
                                    hundred,
                                ),
                            ),
                        ),
                    ),
                ),
            );
            let down = ar(
                Op::Mul(
                    entry,
                    ar(
                        Op::Sub(
                            one,
                            ar(
                                Op::Div(
                                    if is_long {
                                        sl_pct
                                    } else {
                                        tp_pct
                                    },
                                    hundred,
                                ),
                            ),
                        ),
                    ),
                ),
            );
            let priced = !entry.le(zero) && !low.le(zero) && !high.le(zero);
            let stopped = priced && zero.lt(sl_pct) && if is_long {
                low.le(down)
            } else {
                up.le(high)
            };
            let taken = priced && zero.lt(tp_pct) && if is_long {
                up.le(high)
            } else {
                low.le(down)
            };
            let (sl, tp) = if is_long {
                (down, up)
            } else {
                (up, down)
            };
            level_exit(ar, is_long, entry, tp_pct, sl_pct, low, high) == (if stopped {
                Some((ExitReason::StopLoss, sl))
            } else if taken {
                Some((ExitReason::TakeProfit, tp))
            } else {
                None
            })
        }),
{
}

/// Whatever the arithmetic, the profit in percent is the move in the position's favour over
/// the entry price, times a hundred, and none where there is no entry price; the profit in
/// dollars is the size times that, over a hundred.
pub proof fn open_profit_goes_by_entry_and_current_price(ar: Arithmetic, p: PositionView)
    ensures
        p.entry_price.equals(Double::of(ZERO)) ==> p.pnl_pct(ar) == Double::of(ZERO),
        !p.entry_price.equals(Double::of(ZERO)) ==> p.pnl_pct(ar) == ar(
            Op::Mul(
                ar(
                    Op::Div(
                        if p.is_long {
                            ar(Op::Sub(p.current_price, p.entry_price))
                        } else {
                            ar(Op::Sub(p.entry_price, p.current_price))
                        },
                        p.entry_price,
                    ),
                ),
                Double::of(HUNDRED),
            ),
        ),
        p.pnl_usd(ar) == ar(
            Op::Div(ar(Op::Mul(p.size_usd, p.pnl_pct(ar))), Double::of(HUNDRED)),
        ),
{
}

} // verus!
