//! What doubles are worth, and what rounding keeps of the true results.
//!
//! Every finite double is a whole number of units, a unit being the smallest positive
//! double, and 1 is `scale()` of them.  An arithmetic that rounds, as IEEE 754 has it,
//! never carries a true result past a double: where the true result is a double, it is
//! met exactly.  Laws on amounts are stated in units, for every arithmetic that rounds.
use crate::number::{
    Arithmetic, Double, Op, HUNDRED, INFINITY_BITS, ONE, SIGN_BIT, THOUSAND, ZERO,
};
use crate::position::SECS_PER_HOUR;
use crate::stats::{DAYS_PER_YEAR, SECS_PER_DAY};
use vstd::arithmetic::power2::{
    lemma2_to64, lemma2_to64_rest, lemma_pow2_adds, lemma_pow2_pos, lemma_pow2_strictly_increases,
    lemma_pow2_unfold, pow2,
};
use vstd::prelude::*;

verus! {

/// How many units 1 is.
pub open spec fn scale() -> int {
    pow2(1074) as int
}

/// The units of a double with this magnitude: below 2^52 each step of the bits is one
/// unit, and from there on the steps double with every 2^52.
pub open spec fn size_units(magnitude: int) -> int {
    let binade = magnitude / 0x10_0000_0000_0000;
    let rest = magnitude % 0x10_0000_0000_0000;
    if binade == 0 {
        rest
    } else {
        (rest + 0x10_0000_0000_0000) * pow2((binade - 1) as nat)
    }
}

impl Double {
    /// What the double is worth, in units.
    pub open spec fn units(self) -> int {
        if self.rank() >= 0 {
            size_units(self.rank())
        } else {
            -size_units(-self.rank())
        }
    }
}

proof fn sizes_grow(a: int, b: int)
    requires
        0 <= a < b,
    ensures
        size_units(a) < size_units(b),
        0 <= size_units(a),
{
    let step = 0x10_0000_0000_0000int;
    let (i, j) = (a / step, b / step);
    let (r, s) = (a % step, b % step);
    assert(a == i * step + r && b == j * step + s);
    assert(0 <= i <= j);
    if i > 0 {
        lemma_pow2_pos((i - 1) as nat);
        let p = pow2((i - 1) as nat) as int;
        assert(0 <= (r + step) * p) by (nonlinear_arith)
            requires
                r >= 0,
                step > 0,
                p > 0,
        ;
        if i == j {
            assert((r + step) * p < (s + step) * p) by (nonlinear_arith)
                requires
                    r < s,
                    p > 0,
            ;
        } else {
            let q = pow2((j - 1) as nat) as int;
            lemma_pow2_unfold(i as nat);
            if i < j - 1 {
                lemma_pow2_strictly_increases(i as nat, (j - 1) as nat);
            }
            assert(q >= 2 * p);
            assert((r + step) * p < (s + step) * q) by (nonlinear_arith)
                requires
                    r < step,
                    s >= 0,
                    p > 0,
                    step > 0,
                    q >= 2 * p,
            ;
        }
    } else if j > 0 {
        lemma_pow2_pos((j - 1) as nat);
        let q = pow2((j - 1) as nat) as int;
        assert(step <= (s + step) * q) by (nonlinear_arith)
            requires
                s >= 0,
                q >= 1,
                step > 0,
        ;
    }
}

proof fn units_follow_ranks(a: Double, b: Double)
    ensures
        a.rank() < b.rank() ==> a.units() < b.units(),
        a.rank() == b.rank() ==> a.units() == b.units(),
{
    let (m, n) = (a.rank(), b.rank());
    if m < n {
        if m >= 0 {
            sizes_grow(m, n);
        } else if n <= 0 {
            sizes_grow(-n, -m);
        } else {
            sizes_grow(0, -m);
            sizes_grow(0, n);
        }
    }
}

/// Comparisons go by what the doubles are worth: of two numbers, one is below the other,
/// or at most the other, or equal to it, just as the units say.
pub proof fn comparisons_go_by_worth(a: Double, b: Double)
    requires
        !a.is_nan(),
        !b.is_nan(),
    ensures
        a.lt(b) <==> a.units() < b.units(),
        a.le(b) <==> a.units() <= b.units(),
        a.gt(b) <==> a.units() > b.units(),
        a.ge(b) <==> a.units() >= b.units(),
        a.equals(b) <==> a.units() == b.units(),
{
    units_follow_ranks(a, b);
    units_follow_ranks(b, a);
}

/// With the sign cleared, a number is worth its size.
pub proof fn abs_is_the_size(a: Double)
    ensures
        a.abs().units() == (if a.units() < 0 {
            -a.units()
        } else {
            a.units()
        }),
        a.is_nan() <==> a.abs().is_nan(),
        a.is_finite() <==> a.abs().is_finite(),
{
    if a.rank() != 0 {
        sizes_grow(
            0,
            if a.rank() > 0 {
                a.rank()
            } else {
                -a.rank()
            },
        );
    }
}

/// Opposite numbers are worth opposite amounts, and only they.
pub proof fn opposites_are_worth_opposite_amounts(a: Double, b: Double)
    requires
        !a.is_nan(),
        !b.is_nan(),
    ensures
        a.is_opposite(b) <==> a.units() == -b.units(),
{
    flipping_changes_the_sign(b);
    comparisons_go_by_worth(a, flipped(b));
}

/// The double with the other sign.
pub open spec fn flipped(d: Double) -> Double {
    if d.bits >= SIGN_BIT {
        Double { bits: (d.bits - SIGN_BIT) as u64 }
    } else {
        Double { bits: (d.bits + SIGN_BIT) as u64 }
    }
}

pub proof fn flipping_changes_the_sign(d: Double)
    ensures
        flipped(d).units() == -d.units(),
        flipped(d).is_finite() <==> d.is_finite(),
        flipped(d).is_nan() <==> d.is_nan(),
{
    assert(flipped(d).rank() == -d.rank());
    if d.rank() == 0 {
        assert(size_units(0) == 0);
    }
}

proof fn whole_constant(x: Double, n: int, k: nat)
    requires
        k <= 52,
        x.bits < SIGN_BIT,
        x.bits as int / 0x10_0000_0000_0000 == 1023 + k,
        x.bits as int % 0x10_0000_0000_0000 + 0x10_0000_0000_0000 == n * pow2((52 - k) as nat),
    ensures
        x.units() == n * scale(),
{
    let low = (52 - k) as nat;
    let high = (1022 + k) as nat;
    lemma_pow2_adds(low, high);
    let (p, q) = (pow2(low) as int, pow2(high) as int);
    assert((n * p) * q == n * (p * q)) by (nonlinear_arith);
}

/// The constants are worth what their names say.
pub proof fn constants_are_worth_their_names()
    ensures
        Double::of(ZERO).units() == 0,
        Double::of(ONE).units() == scale(),
        Double::of(HUNDRED).units() == 100 * scale(),
        Double::of(THOUSAND).units() == 1000 * scale(),
        Double::of(SECS_PER_HOUR).units() == 3600 * scale(),
        Double::of(SECS_PER_DAY).units() == 86_400 * scale(),
        4 * Double::of(DAYS_PER_YEAR).units() == 1461 * scale(),
        scale() > 0,
{
    lemma2_to64();
    lemma2_to64_rest();
    lemma_pow2_pos(1074);
    assert(size_units(0) == 0);
    whole_constant(Double::of(ONE), 1, 0);
    whole_constant(Double::of(HUNDRED), 100, 6);
    whole_constant(Double::of(THOUSAND), 1000, 9);
    whole_constant(Double::of(SECS_PER_HOUR), 3600, 11);
    whole_constant(Double::of(SECS_PER_DAY), 86_400, 16);
    // A quarter of 1461, two binades lower than 1461 itself.
    let year = Double::of(DAYS_PER_YEAR);
    assert(year.bits as int / 0x10_0000_0000_0000 == 1031);
    assert(year.bits as int % 0x10_0000_0000_0000 + 0x10_0000_0000_0000 == 1461 * pow2(42));
    lemma_pow2_adds(42, 1030);
    lemma_pow2_adds(1072, 2);
    let (p, q) = (pow2(42) as int, pow2(1030) as int);
    assert((1461 * p) * q == 1461 * (p * q)) by (nonlinear_arith);
}

/// `r` is what `num / den` units may be rounded to: no double lies between them.
pub open spec fn rounds(num: int, den: int, r: Double) -> bool {
    &&& !r.is_nan()
    &&& forall|d: Double|
        #![trigger d.units()]
        d.is_finite() ==> (num <= d.units() * den ==> r.le(d)) && (num >= d.units() * den ==> d.le(
            r,
        ))
}

/// `r` is what the square root of `square` units times units may be rounded to.
pub open spec fn rounds_root(square: int, r: Double) -> bool {
    &&& !r.is_nan()
    &&& forall|d: Double|
        #![trigger d.units()]
        d.is_finite() && d.units() >= 0 ==> (square <= d.units() * d.units() ==> r.le(d)) && (square
            >= d.units() * d.units() ==> d.le(r))
}

/// The arithmetic rounds the true results of operations on finite doubles, as IEEE 754
/// has it.
pub open spec fn is_rounding(ar: Arithmetic) -> bool {
    &&& forall|a: Double, b: Double|
        a.is_finite() && b.is_finite() ==> rounds(
            a.units() + b.units(),
            1,
            #[trigger] ar(Op::Add(a, b)),
        )
    &&& forall|a: Double, b: Double|
        a.is_finite() && b.is_finite() ==> rounds(
            a.units() - b.units(),
            1,
            #[trigger] ar(Op::Sub(a, b)),
        )
    &&& forall|a: Double, b: Double|
        a.is_finite() && b.is_finite() ==> rounds(
            a.units() * b.units(),
            scale(),
            #[trigger] ar(Op::Mul(a, b)),
        )
    &&& forall|a: Double, b: Double|
        a.is_finite() && b.is_finite() && b.units() > 0 ==> rounds(
            a.units() * scale(),
            b.units(),
            #[trigger] ar(Op::Div(a, b)),
        )
    &&& forall|a: Double, b: Double|
        a.is_finite() && b.is_finite() && b.units() < 0 ==> rounds(
            -(a.units() * scale()),
            -b.units(),
            #[trigger] ar(Op::Div(a, b)),
        )
    &&& forall|a: Double|
        a.is_finite() ==> rounds(
            a.units() * a.units(),
            scale(),
            #[trigger] ar(Op::Square(a)),
        )
    &&& forall|a: Double|
        a.is_finite() && a.units() >= 0 ==> rounds_root(
            a.units() * scale(),
            #[trigger] ar(Op::Sqrt(a)),
        )
    &&& forall|n: u64| rounds(n * scale(), 1, #[trigger] ar(Op::OfCount(n)))
    &&& forall|n: i64| rounds(n * scale(), 1, #[trigger] ar(Op::OfInt(n)))
}

/// Two doubles of one worth.
pub open spec fn is_worth(r: Double, d: Double) -> bool {
    r.is_finite() && r.units() == d.units()
}

/// A true result that is a double is met exactly.
pub proof fn exact_results_are_met(num: int, den: int, r: Double, d: Double)
    requires
        rounds(num, den, r),
        d.is_finite(),
        num == d.units() * den,
    ensures
        is_worth(r, d),
{
    assert(r.le(d) && d.le(r));
    units_follow_ranks(r, d);
}

/// A sum that is a double is met exactly.
pub proof fn sum_is_met(ar: Arithmetic, a: Double, b: Double, d: Double)
    requires
        is_rounding(ar),
        a.is_finite(),
        b.is_finite(),
        d.is_finite(),
        d.units() == a.units() + b.units(),
    ensures
        is_worth(ar(Op::Add(a, b)), d),
{
    exact_results_are_met(a.units() + b.units(), 1, ar(Op::Add(a, b)), d);
}

/// A difference that is a double is met exactly.
pub proof fn difference_is_met(ar: Arithmetic, a: Double, b: Double, d: Double)
    requires
        is_rounding(ar),
        a.is_finite(),
        b.is_finite(),
        d.is_finite(),
        d.units() == a.units() - b.units(),
    ensures
        is_worth(ar(Op::Sub(a, b)), d),
{
    exact_results_are_met(a.units() - b.units(), 1, ar(Op::Sub(a, b)), d);
}

/// A product that is a double is met exactly.
pub proof fn product_is_met(ar: Arithmetic, a: Double, b: Double, d: Double)
    requires
        is_rounding(ar),
        a.is_finite(),
        b.is_finite(),
        d.is_finite(),
        d.units() * scale() == a.units() * b.units(),
    ensures
        is_worth(ar(Op::Mul(a, b)), d),
{
    exact_results_are_met(a.units() * b.units(), scale(), ar(Op::Mul(a, b)), d);
}

/// A quotient that is a double is met exactly.
pub proof fn quotient_is_met(ar: Arithmetic, a: Double, b: Double, d: Double)
    requires
        is_rounding(ar),
        a.is_finite(),
        b.is_finite(),
        d.is_finite(),
        b.units() != 0,
        d.units() * b.units() == a.units() * scale(),
    ensures
        is_worth(ar(Op::Div(a, b)), d),
{
    if b.units() > 0 {
        exact_results_are_met(a.units() * scale(), b.units(), ar(Op::Div(a, b)), d);
    } else {
        assert(d.units() * (-b.units()) == -(d.units() * b.units())) by (nonlinear_arith);
        exact_results_are_met(-(a.units() * scale()), -b.units(), ar(Op::Div(a, b)), d);
    }
}

/// A square that is a double is met exactly.
pub proof fn square_is_met(ar: Arithmetic, a: Double, d: Double)
    requires
        is_rounding(ar),
        a.is_finite(),
        d.is_finite(),
        d.units() * scale() == a.units() * a.units(),
    ensures
        is_worth(ar(Op::Square(a)), d),
{
    exact_results_are_met(a.units() * a.units(), scale(), ar(Op::Square(a)), d);
}

/// A square root that is a double is met exactly.
pub proof fn root_is_met(ar: Arithmetic, a: Double, d: Double)
    requires
        is_rounding(ar),
        a.is_finite(),
        d.is_finite(),
        a.units() >= 0,
        d.units() >= 0,
        d.units() * d.units() == a.units() * scale(),
    ensures
        is_worth(ar(Op::Sqrt(a)), d),
{
    let r = ar(Op::Sqrt(a));
    assert(rounds_root(a.units() * scale(), r));
    assert(r.le(d) && d.le(r));
    units_follow_ranks(r, d);
}

/// A count that is a double is met exactly.
pub proof fn count_is_met(ar: Arithmetic, n: u64, d: Double)
    requires
        is_rounding(ar),
        d.is_finite(),
        d.units() == n * scale(),
    ensures
        is_worth(ar(Op::OfCount(n)), d),
{
    exact_results_are_met(n * scale(), 1, ar(Op::OfCount(n)), d);
}

/// An integer that is a double is met exactly.
pub proof fn integer_is_met(ar: Arithmetic, n: i64, d: Double)
    requires
        is_rounding(ar),
        d.is_finite(),
        d.units() == n * scale(),
    ensures
        is_worth(ar(Op::OfInt(n)), d),
{
    exact_results_are_met(n * scale(), 1, ar(Op::OfInt(n)), d);
}

/// A true result of no more than zero is not rounded above it, nor one of no less than
/// zero below it; and one of a whole unit keeps its sign.
pub proof fn signs_survive_rounding(num: int, den: int, r: Double)
    requires
        rounds(num, den, r),
        den > 0,
    ensures
        num <= 0 ==> r.le(Double::of(ZERO)),
        num >= 0 ==> r.ge(Double::of(ZERO)),
        num <= -den ==> r.lt(Double::of(ZERO)),
        num >= den ==> r.gt(Double::of(ZERO)),
{
    let zero = Double::of(ZERO);
    let up = Double { bits: 1 };
    let down = Double { bits: (SIGN_BIT + 1) as u64 };
    assert(size_units(0) == 0 && size_units(1) == 1);
    assert(zero.units() == 0 && up.units() == 1 && down.units() == -1);
    assert(zero.units() * den == 0 && up.units() * den == den && down.units() * den == -den);
}

/// A true result between two finite doubles stays between them.
pub proof fn bounds_survive_rounding(num: int, den: int, r: Double, low: Double, high: Double)
    requires
        rounds(num, den, r),
        low.is_finite(),
        high.is_finite(),
        low.units() * den <= num <= high.units() * den,
    ensures
        r.is_finite(),
        low.units() <= r.units() <= high.units(),
{
    assert(r.le(high) && low.le(r));
    comparisons_go_by_worth(r, high);
    comparisons_go_by_worth(low, r);
}

/// The double at this place in the order.
pub open spec fn ranked_at(rank: int) -> Double {
    if rank >= 0 {
        Double { bits: rank as u64 }
    } else {
        Double { bits: (SIGN_BIT - rank) as u64 }
    }
}

proof fn last_that_holds(holds: spec_fn(int) -> bool, low: int, high: int) -> (k: int)
    requires
        low <= high,
        holds(low),
    ensures
        low <= k <= high,
        holds(k),
        forall|j: int| k < j <= high ==> !#[trigger] holds(j),
    decreases high - low,
{
    if holds(high) {
        high
    } else {
        last_that_holds(holds, low, high - 1)
    }
}

proof fn quotients_can_be_rounded(num: int, den: int) -> (r: Double)
    requires
        den > 0,
    ensures
        rounds(num, den, r),
{
    let top = INFINITY_BITS as int;
    let holds = |k: int| k == -top || ranked_at(k).units() * den <= num;
    let k = last_that_holds(holds, -top, top);
    let r = ranked_at(k);
    assert(r.rank() == k);
    assert forall|d: Double|
        #![trigger d.units()]
        d.is_finite() implies (num <= d.units() * den ==> r.le(d)) && (num >= d.units() * den
        ==> d.le(r)) by {
        let j = d.rank();
        assert(ranked_at(j).rank() == j);
        units_follow_ranks(ranked_at(j), d);
        if num >= d.units() * den {
            assert(holds(j));
        }
        if num <= d.units() * den && k != -top {
            let (a, b) = (r.units(), d.units());
            assert(holds(k));
            assert(a <= b) by (nonlinear_arith)
                requires
                    a * den <= b * den,
                    den > 0,
            ;
            comparisons_go_by_worth(r, d);
        }
    }
    r
}

proof fn roots_can_be_rounded(square: int) -> (r: Double)
    requires
        square >= 0,
    ensures
        rounds_root(square, r),
{
    let top = INFINITY_BITS as int;
    let holds = |k: int| ranked_at(k).units() * ranked_at(k).units() <= square;
    constants_are_worth_their_names();
    assert(ranked_at(0) == Double::of(ZERO));
    assert(holds(0));
    let k = last_that_holds(holds, 0, top);
    let r = ranked_at(k);
    assert(r.rank() == k);
    if k > 0 {
        sizes_grow(0, k);
    }
    assert(r.units() >= 0);
    assert forall|d: Double|
        #![trigger d.units()]
        d.is_finite() && d.units() >= 0 implies (square <= d.units() * d.units() ==> r.le(d)) && (
    square >= d.units() * d.units() ==> d.le(r)) by {
        let j = d.rank();
        assert(ranked_at(j).rank() == j);
        units_follow_ranks(ranked_at(j), d);
        units_follow_ranks(d, ranked_at(0));
        assert(j >= 0);
        if square >= d.units() * d.units() {
            assert(holds(j));
        }
        if square <= d.units() * d.units() {
            let (a, b) = (r.units(), d.units());
            assert(holds(k));
            assert(a <= b) by (nonlinear_arith)
                requires
                    a * a <= b * b,
                    a >= 0,
                    b >= 0,
            ;
            comparisons_go_by_worth(r, d);
        }
    }
    r
}

/// A double that the quotient may be rounded to.
pub open spec fn rounded(num: int, den: int) -> Double {
    choose|r: Double| #[trigger] rounds(num, den, r)
}

/// A double that the square root may be rounded to.
pub open spec fn rounded_root(square: int) -> Double {
    choose|r: Double| #[trigger] rounds_root(square, r)
}

/// There are arithmetics that round: every true result of an operation on finite doubles can
/// be rounded.
pub proof fn roundings_exist() -> (ar: Arithmetic)
    ensures
        is_rounding(ar),
{
    let ar: Arithmetic = |op: Op|
        match op {
            Op::Add(a, b) => rounded(a.units() + b.units(), 1),
            Op::Sub(a, b) => rounded(a.units() - b.units(), 1),
            Op::Mul(a, b) => rounded(a.units() * b.units(), scale()),
            Op::Div(a, b) => if b.units() > 0 {
                rounded(a.units() * scale(), b.units())
            } else {
                rounded(-(a.units() * scale()), -b.units())
            },
            Op::Square(a) => rounded(a.units() * a.units(), scale()),
            Op::Sqrt(a) => rounded_root(a.units() * scale()),
            Op::OfCount(n) => rounded(n * scale(), 1),
            Op::OfInt(n) => rounded(n * scale(), 1),
        };
    constants_are_worth_their_names();
    let u = scale();
    assert forall|a: Double, b: Double| a.is_finite() && b.is_finite() implies rounds(
        a.units() + b.units(),
        1,
        #[trigger] ar(Op::Add(a, b)),
    ) by {
        let r = quotients_can_be_rounded(a.units() + b.units(), 1);
    }
    assert forall|a: Double, b: Double| a.is_finite() && b.is_finite() implies rounds(
        a.units() - b.units(),
        1,
        #[trigger] ar(Op::Sub(a, b)),
    ) by {
        let r = quotients_can_be_rounded(a.units() - b.units(), 1);
    }
    assert forall|a: Double, b: Double| a.is_finite() && b.is_finite() implies rounds(
        a.units() * b.units(),
        scale(),
        #[trigger] ar(Op::Mul(a, b)),
    ) by {
        let r = quotients_can_be_rounded(a.units() * b.units(), u);
    }
    assert forall|a: Double, b: Double|
        a.is_finite() && b.is_finite() && b.units() > 0 implies rounds(
        a.units() * scale(),
        b.units(),
        #[trigger] ar(Op::Div(a, b)),
    ) by {
        let r = quotients_can_be_rounded(a.units() * u, b.units());
    }
    assert forall|a: Double, b: Double|
        a.is_finite() && b.is_finite() && b.units() < 0 implies rounds(
        -(a.units() * scale()),
        -b.units(),
        #[trigger] ar(Op::Div(a, b)),
    ) by {
        let r = quotients_can_be_rounded(-(a.units() * u), -b.units());
    }
    assert forall|a: Double| a.is_finite() implies rounds(
        a.units() * a.units(),
        scale(),
        #[trigger] ar(Op::Square(a)),
    ) by {
        let r = quotients_can_be_rounded(a.units() * a.units(), u);
    }
    assert forall|a: Double| a.is_finite() && a.units() >= 0 implies rounds_root(
        a.units() * scale(),
        #[trigger] ar(Op::Sqrt(a)),
    ) by {
        let x = a.units();
        assert(x * u >= 0) by (nonlinear_arith)
            requires
                x >= 0,
                u > 0,
        ;
        let r = roots_can_be_rounded(x * u);
    }
    assert forall|n: u64| rounds(n * scale(), 1, #[trigger] ar(Op::OfCount(n))) by {
        let r = quotients_can_be_rounded(n * u, 1);
    }
    assert forall|n: i64| rounds(n * scale(), 1, #[trigger] ar(Op::OfInt(n))) by {
        let r = quotients_can_be_rounded(n * u, 1);
    }
    ar
}

} // verus!
