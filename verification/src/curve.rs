//! What the returns along an equity curve are, and what their Sharpe ratio is.
use crate::number::{Arithmetic, Double, Op, ZERO};
use crate::stats::{changes_of, sharpe_of, squares_of, sum_of, DAYS_PER_YEAR, SECS_PER_DAY};
use crate::value::{
    comparisons_go_by_worth, constants_are_worth_their_names, count_is_met, difference_is_met,
    is_rounding, is_worth, product_is_met, quotient_is_met, root_is_met, scale, square_is_met,
    sum_is_met,
};
use vstd::prelude::*;

verus! {

/// The samples that are above zero.
pub open spec fn positive_in(samples: Seq<Double>) -> nat
    decreases samples.len(),
{
    if samples.len() == 0 {
        0
    } else {
        positive_in(samples.drop_last()) + (if Double::of(ZERO).lt(samples.last()) {
            1nat
        } else {
            0
        })
    }
}

/// A curve has one return for each sample above zero but the last, whether or not the
/// equity moves.
pub proof fn every_positive_sample_has_a_return(ar: Arithmetic, equity: Seq<Double>)
    requires
        equity.len() > 0,
    ensures
        changes_of(ar, equity).len() == positive_in(equity.drop_last()),
    decreases equity.len(),
{
    if equity.len() >= 2 {
        every_positive_sample_has_a_return(ar, equity.drop_last());
        assert(equity.drop_last().last() == equity[equity.len() - 2]);
    }
}

/// A curve of samples above zero has one return from each sample to the next, and it is
/// their difference over the first of the two.
pub proof fn returns_are_taken_from_each_sample_to_the_next(ar: Arithmetic, equity: Seq<Double>)
    requires
        equity.len() > 0,
        forall|k: int| 0 <= k < equity.len() - 1 ==> Double::of(ZERO).lt(#[trigger] equity[k]),
    ensures
        changes_of(ar, equity).len() == equity.len() - 1,
        forall|k: int|
            0 <= k < equity.len() - 1 ==> #[trigger] changes_of(ar, equity)[k] == ar(
                Op::Div(ar(Op::Sub(equity[k + 1], equity[k])), equity[k]),
            ),
    decreases equity.len(),
{
    if equity.len() >= 2 {
        let shorter = equity.drop_last();
        assert forall|k: int| 0 <= k < shorter.len() - 1 implies Double::of(ZERO).lt(
            #[trigger] shorter[k],
        ) by {
            assert(shorter[k] == equity[k]);
        }
        returns_are_taken_from_each_sample_to_the_next(ar, shorter);
        let prev = equity[equity.len() - 2];
        assert(prev.gt(Double::of(ZERO)));
        assert forall|k: int| 0 <= k < equity.len() - 1 implies #[trigger] changes_of(
            ar,
            equity,
        )[k] == ar(Op::Div(ar(Op::Sub(equity[k + 1], equity[k])), equity[k])) by {
            if k < shorter.len() - 1 {
                assert(changes_of(ar, equity)[k] == changes_of(ar, shorter)[k]);
                assert(shorter[k + 1] == equity[k + 1] && shorter[k] == equity[k]);
            }
        }
    }
}

/// Two samples make one return if the first is above zero, and else none.
pub proof fn two_samples_make_a_return(ar: Arithmetic, from: Double, to: Double)
    ensures
        Double::of(ZERO).lt(from) ==> changes_of(ar, seq![from, to]) == seq![
            ar(Op::Div(ar(Op::Sub(to, from)), from)),
        ],
        !Double::of(ZERO).lt(from) ==> changes_of(ar, seq![from, to]) == Seq::<Double>::empty(),
{
    let pair = seq![from, to];
    assert(changes_of(ar, pair.drop_last()) =~= Seq::<Double>::empty());
    assert(pair[pair.len() - 2] == from && pair.last() == to);
    if Double::of(ZERO).lt(from) {
        assert(changes_of(ar, pair) =~= seq![ar(Op::Div(ar(Op::Sub(to, from)), from))]);
    } else {
        assert(changes_of(ar, pair) =~= Seq::<Double>::empty());
    }
}

/// The returns along a curve are those up to any of its samples, and then those from
/// there on.
pub proof fn returns_can_be_split(
    ar: Arithmetic,
    before: Seq<Double>,
    sample: Double,
    after: Seq<Double>,
)
    ensures
        changes_of(ar, before.push(sample) + after) == changes_of(ar, before.push(sample))
            + changes_of(ar, seq![sample] + after),
    decreases after.len(),
{
    let left = before.push(sample);
    let right = seq![sample] + after;
    let whole = left + after;
    if after.len() == 0 {
        assert(whole =~= left);
        assert(right =~= seq![sample]);
        assert(changes_of(ar, right) =~= Seq::<Double>::empty());
        assert(changes_of(ar, left) + changes_of(ar, right) =~= changes_of(ar, left));
    } else {
        returns_can_be_split(ar, before, sample, after.drop_last());
        assert(whole.drop_last() =~= left + after.drop_last());
        assert(right.drop_last() =~= seq![sample] + after.drop_last());
        assert(whole.last() == right.last());
        assert(whole[whole.len() - 2] == right[right.len() - 2]);
        assert(changes_of(ar, whole) =~= changes_of(ar, left) + changes_of(ar, right));
    }
}

/// `sums` are the true sums of the numbers, from none to all of them, and each is a
/// double.
pub open spec fn sums_exactly(xs: Seq<Double>, sums: Seq<Double>) -> bool {
    &&& sums.len() == xs.len() + 1
    &&& sums[0].units() == 0
    &&& forall|k: int| 0 <= k < sums.len() ==> (#[trigger] sums[k]).is_finite()
    &&& forall|k: int|
        0 <= k < xs.len() ==> (#[trigger] xs[k]).is_finite() && sums[k + 1].units()
            == sums[k].units() + xs[k].units()
}

/// Sums that need no rounding are the true ones.
pub proof fn exact_sums_are_met(ar: Arithmetic, xs: Seq<Double>, sums: Seq<Double>)
    requires
        is_rounding(ar),
        sums_exactly(xs, sums),
    ensures
        is_worth(sum_of(ar, xs), sums.last()),
    decreases xs.len(),
{
    constants_are_worth_their_names();
    if xs.len() > 0 {
        let n = xs.len() - 1;
        let shorter = sums.drop_last();
        assert forall|k: int| 0 <= k < shorter.len() implies (#[trigger] shorter[k]).is_finite() by {
            assert(sums[k].is_finite());
        }
        assert forall|k: int| 0 <= k < n implies (#[trigger] xs.drop_last()[k]).is_finite()
            && shorter[k + 1].units() == shorter[k].units() + xs.drop_last()[k].units() by {
            assert(xs[k].is_finite());
        }
        exact_sums_are_met(ar, xs.drop_last(), shorter);
        assert(xs[n].is_finite() && sums[n].is_finite() && sums[n + 1].is_finite());
        sum_is_met(ar, sum_of(ar, xs.drop_last()), xs[n], sums[n + 1]);
    }
}

/// A sum goes on with the next number, and starts at zero.
pub proof fn sums_go_on(ar: Arithmetic, xs: Seq<Double>, x: Double)
    ensures
        sum_of(ar, xs.push(x)) == ar(Op::Add(sum_of(ar, xs), x)),
        sum_of(ar, Seq::empty()) == Double::of(ZERO),
{
    assert(xs.push(x).drop_last() =~= xs);
}

/// The Sharpe ratio of a curve is the mean of its returns over their standard deviation,
/// with one degree of freedom less than there are returns, times the square root of the
/// bars in a year of 365 and a quarter days.  Here the steps need no rounding: the mean
/// `mean`, the distances from it, their squares, the variance, the deviation, the bars in a
/// year, its root, and the ratio before and after it is annualized are doubles.
pub proof fn sharpe_is_the_annualized_mean_over_deviation(
    ar: Arithmetic,
    equity: Seq<Double>,
    interval_secs: Double,
    sums: Seq<Double>,
    count: Double,
    mean: Double,
    distances: Seq<Double>,
    squares: Seq<Double>,
    spreads: Seq<Double>,
    freedom: Double,
    variance: Double,
    deviation: Double,
    year: Double,
    bars: Double,
    root: Double,
    ratio: Double,
    sharpe: Double,
)
    requires
        is_rounding(ar),
        2 <= changes_of(ar, equity).len() <= u64::MAX,
        sums_exactly(changes_of(ar, equity), sums),
        count.is_finite() && count.units() == changes_of(ar, equity).len() * scale(),
        mean.is_finite() && mean.units() * count.units() == sums.last().units() * scale(),
        distances.len() == changes_of(ar, equity).len(),
        squares.len() == changes_of(ar, equity).len(),
        forall|k: int|
            0 <= k < distances.len() ==> (#[trigger] distances[k]).is_finite()
                && distances[k].units() == changes_of(ar, equity)[k].units() - mean.units(),
        forall|k: int|
            0 <= k < squares.len() ==> (#[trigger] squares[k]).is_finite() && squares[k].units()
                * scale() == distances[k].units() * distances[k].units(),
        sums_exactly(squares, spreads),
        freedom.is_finite() && freedom.units() == (changes_of(ar, equity).len() - 1) * scale(),
        variance.is_finite() && variance.units() * freedom.units() == spreads.last().units()
            * scale(),
        variance.units() >= 0,
        deviation.is_finite() && deviation.units() >= 0,
        deviation.units() * deviation.units() == variance.units() * scale(),
        interval_secs.is_finite() && interval_secs.units() > 0,
        year.is_finite() && year.units() == 31_557_600 * scale(),
        bars.is_finite() && bars.units() * interval_secs.units() == year.units() * scale(),
        bars.units() >= 0,
        root.is_finite() && root.units() >= 0 && root.units() * root.units() == bars.units()
            * scale(),
        ratio.is_finite() && ratio.units() * deviation.units() == mean.units() * scale(),
        sharpe.is_finite() && sharpe.units() * scale() == ratio.units() * root.units(),
    ensures
        deviation.units() > 0 ==> is_worth(sharpe_of(ar, equity, interval_secs), sharpe),
        deviation.units() == 0 ==> sharpe_of(ar, equity, interval_secs) == Double::of(ZERO),
{
    constants_are_worth_their_names();
    let xs = changes_of(ar, equity);
    let n = xs.len();
    let u = scale();
    exact_sums_are_met(ar, xs, sums);
    assert(sums[n as int].is_finite());
    count_is_met(ar, n as u64, count);
    let c = ar(Op::OfCount(n as u64));
    assert(n * u != 0) by (nonlinear_arith)
        requires
            n >= 2,
            u > 0,
    ;
    quotient_is_met(ar, sum_of(ar, xs), c, mean);
    let m = ar(Op::Div(sum_of(ar, xs), c));
    // The squares that are taken are worth those given.
    let taken = squares_of(ar, xs, m);
    assert forall|k: int| 0 <= k < n implies is_worth(#[trigger] taken[k], squares[k]) by {
        assert(xs[k].is_finite());
        assert(distances[k].is_finite() && squares[k].is_finite());
        difference_is_met(ar, xs[k], m, distances[k]);
        square_is_met(ar, ar(Op::Sub(xs[k], m)), squares[k]);
        assert(taken[k] == ar(Op::Square(ar(Op::Sub(xs[k], m)))));
    }
    assert forall|k: int| 0 <= k < taken.len() implies (#[trigger] taken[k]).is_finite()
        && spreads[k + 1].units() == spreads[k].units() + taken[k].units() by {
        assert(is_worth(taken[k], squares[k]));
        assert(squares[k].is_finite());
    }
    exact_sums_are_met(ar, taken, spreads);
    assert(spreads[n as int].is_finite());
    count_is_met(ar, (n - 1) as u64, freedom);
    let f = ar(Op::OfCount((n - 1) as u64));
    assert((n - 1) * u != 0) by (nonlinear_arith)
        requires
            n >= 2,
            u > 0,
    ;
    quotient_is_met(ar, sum_of(ar, taken), f, variance);
    let v = ar(Op::Div(sum_of(ar, taken), f));
    root_is_met(ar, v, deviation);
    let s = ar(Op::Sqrt(v));
    comparisons_go_by_worth(s, Double::of(ZERO));
    if deviation.units() > 0 {
        quotient_is_met(ar, m, s, ratio);
        let (days, day) = (Double::of(DAYS_PER_YEAR), Double::of(SECS_PER_DAY));
        let (d, e) = (days.units(), day.units());
        assert(4 * ((31_557_600 * u) * u) == 4 * (d * e)) by (nonlinear_arith)
            requires
                4 * d == 1461 * u,
                e == 86_400 * u,
        ;
        product_is_met(ar, days, day, year);
        let y = ar(Op::Mul(days, day));
        quotient_is_met(ar, y, interval_secs, bars);
        let b = ar(Op::Div(y, interval_secs));
        root_is_met(ar, b, root);
        product_is_met(ar, ar(Op::Div(m, s)), ar(Op::Sqrt(b)), sharpe);
    }
}

/// Whatever the arithmetic, curves with the same returns have the same Sharpe ratio, and
/// one with fewer than two returns, or without deviation, has none.
pub proof fn sharpe_goes_by_the_returns(
    ar: Arithmetic,
    equity: Seq<Double>,
    other: Seq<Double>,
    interval_secs: Double,
)
    requires
        changes_of(ar, equity) == changes_of(ar, other),
    ensures
        sharpe_of(ar, equity, interval_secs) == sharpe_of(ar, other, interval_secs),
        changes_of(ar, equity).len() < 2 ==> sharpe_of(ar, equity, interval_secs) == Double::of(
            ZERO,
        ),
        ({
            let xs = changes_of(ar, equity);
            let mean = ar(Op::Div(sum_of(ar, xs), ar(Op::OfCount(xs.len() as u64))));
            let squares = Seq::new(xs.len(), |k: int| ar(Op::Square(ar(Op::Sub(xs[k], mean)))));
            let deviation = ar(
                Op::Sqrt(
                    ar(
                        Op::Div(
                            sum_of(ar, squares),
                            ar(Op::OfCount((xs.len() - 1) as u64)),
                        ),
                    ),
                ),
            );
            let year = ar(Op::Mul(Double::of(DAYS_PER_YEAR), Double::of(SECS_PER_DAY)));
            xs.len() >= 2 ==> sharpe_of(ar, equity, interval_secs) == (if Double::of(ZERO).lt(
                deviation,
            ) {
                ar(
                    Op::Mul(
                        ar(Op::Div(mean, deviation)),
                        ar(Op::Sqrt(ar(Op::Div(year, interval_secs)))),
                    ),
                )
            } else {
                Double::of(ZERO)
            })
        }),
{
    let xs = changes_of(ar, equity);
    let mean = ar(Op::Div(sum_of(ar, xs), ar(Op::OfCount(xs.len() as u64))));
    let squares = Seq::new(xs.len(), |k: int| ar(Op::Square(ar(Op::Sub(xs[k], mean)))));
    assert(squares_of(ar, xs, mean) =~= squares);
}

} // verus!
