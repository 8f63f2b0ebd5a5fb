//! Double-precision numbers, held by their bits.
//!
//! Prices and amounts are IEEE 754 doubles.  The library keeps them as bit
//! patterns and compares them itself.  Arithmetic on them is done by a function
//! that the caller passes in; the contracts say which operation is applied to
//! which operands, for whatever arithmetic that function carries out.
use vstd::prelude::*;

verus! {

/// Bit that carries the sign.
pub const SIGN_BIT: u64 = 0x8000_0000_0000_0000;

/// Bits of positive infinity; a larger magnitude is not a number.
pub const INFINITY_BITS: u64 = 0x7ff0_0000_0000_0000;

/// A double-precision number.  `==` compares bits; `equals`, `lt` and the other
/// comparisons compare values, as IEEE 754 does.
#[derive(Clone, Copy, Debug, PartialEq, Eq, Structural)]
pub struct Double {
    pub bits: u64,
}

/// Bits of 0.
pub const ZERO: u64 = 0;

/// Bits of 1.
pub const ONE: u64 = 0x3ff0_0000_0000_0000;

/// Bits of 100.
pub const HUNDRED: u64 = 0x4059_0000_0000_0000;

/// Bits of 1000.
pub const THOUSAND: u64 = 0x408f_4000_0000_0000;

impl Double {
    pub open spec fn spec_of(bits: u64) -> Double {
        Double { bits }
    }

    /// The number that these bits stand for.
    #[verifier::when_used_as_spec(spec_of)]
    pub fn of(bits: u64) -> (r: Double)
        ensures
            r == Double::spec_of(bits),
    {
        Double { bits }
    }

    /// The number without its sign, as an integer that grows with it.
    pub open spec fn magnitude(self) -> int {
        if self.bits >= SIGN_BIT {
            self.bits - SIGN_BIT
        } else {
            self.bits as int
        }
    }

    /// Where the number stands in the order of the doubles; both zeros stand at 0.
    pub open spec fn rank(self) -> int {
        if self.bits >= SIGN_BIT {
            -self.magnitude()
        } else {
            self.magnitude()
        }
    }

    pub open spec fn spec_is_nan(self) -> bool {
        self.magnitude() > INFINITY_BITS
    }

    /// This is a number and no infinity.
    pub open spec fn is_finite(self) -> bool {
        self.magnitude() < INFINITY_BITS
    }

    /// Both are numbers, of one size and of opposite sign; two zeros are, too.
    pub open spec fn is_opposite(self, other: Double) -> bool {
        !self.spec_is_nan() && !other.spec_is_nan() && self.rank() == -other.rank()
    }

    /// Both are numbers, and this one is the smaller.
    pub open spec fn spec_lt(self, other: Double) -> bool {
        !self.spec_is_nan() && !other.spec_is_nan() && self.rank() < other.rank()
    }

    /// Both are numbers, and this one is not the larger.
    pub open spec fn spec_le(self, other: Double) -> bool {
        !self.spec_is_nan() && !other.spec_is_nan() && self.rank() <= other.rank()
    }

    pub open spec fn spec_gt(self, other: Double) -> bool {
        other.spec_lt(self)
    }

    pub open spec fn spec_ge(self, other: Double) -> bool {
        other.spec_le(self)
    }

    /// Both are numbers, and of one value.
    pub open spec fn spec_equals(self, other: Double) -> bool {
        !self.spec_is_nan() && !other.spec_is_nan() && self.rank() == other.rank()
    }

    /// The number with its sign cleared.
    pub open spec fn spec_abs(self) -> Double {
        Double { bits: self.magnitude() as u64 }
    }

    #[verifier::when_used_as_spec(spec_is_nan)]
    pub fn is_nan(self) -> (r: bool)
        ensures
            r == self.spec_is_nan(),
    {
        self.abs().bits > INFINITY_BITS
    }

    #[verifier::when_used_as_spec(spec_abs)]
    pub fn abs(self) -> (r: Double)
        ensures
            r == self.spec_abs(),
    {
        if self.bits >= SIGN_BIT {
            Double { bits: self.bits - SIGN_BIT }
        } else {
            self
        }
    }

    fn place(self) -> (r: i64)
        ensures
            r == self.rank(),
    {
        let size: i64 = self.abs().bits as i64;
        if self.bits >= SIGN_BIT {
            -size
        } else {
            size
        }
    }

    #[verifier::when_used_as_spec(spec_lt)]
    pub fn lt(self, other: Double) -> (r: bool)
        ensures
            r == self.spec_lt(other),
    {
        !self.is_nan() && !other.is_nan() && self.place() < other.place()
    }

    #[verifier::when_used_as_spec(spec_le)]
    pub fn le(self, other: Double) -> (r: bool)
        ensures
            r == self.spec_le(other),
    {
        !self.is_nan() && !other.is_nan() && self.place() <= other.place()
    }

    #[verifier::when_used_as_spec(spec_gt)]
    pub fn gt(self, other: Double) -> (r: bool)
        ensures
            r == self.spec_gt(other),
    {
        other.lt(self)
    }

    #[verifier::when_used_as_spec(spec_ge)]
    pub fn ge(self, other: Double) -> (r: bool)
        ensures
            r == self.spec_ge(other),
    {
        other.le(self)
    }

    #[verifier::when_used_as_spec(spec_equals)]
    pub fn equals(self, other: Double) -> (r: bool)
        ensures
            r == self.spec_equals(other),
    {
        !self.is_nan() && !other.is_nan() && self.place() == other.place()
    }
}

/// One operation of floating-point arithmetic with its operands.
#[derive(Clone, Copy, Debug)]
pub enum Op {
    /// The first plus the second.
    Add(Double, Double),
    /// The first minus the second.
    Sub(Double, Double),
    /// The first times the second.
    Mul(Double, Double),
    /// The first divided by the second.
    Div(Double, Double),
    /// The second power.
    Square(Double),
    /// The square root.
    Sqrt(Double),
    /// The double nearest to a count.
    OfCount(u64),
    /// The double nearest to an integer.
    OfInt(i64),
}

/// What an arithmetic makes of each operation.
pub type Arithmetic = spec_fn(Op) -> Double;

/// `calc` can be asked for every operation.
pub open spec fn answers<F: Fn(Op) -> Double>(calc: F) -> bool {
    forall|op: Op| #[trigger] call_requires(calc, (op,))
}

/// `calc` carries out the arithmetic `ar`.
pub open spec fn computes<F: Fn(Op) -> Double>(calc: F, ar: Arithmetic) -> bool {
    forall|op: Op, r: Double| #[trigger] call_ensures(calc, (op,), r) ==> r == ar(op)
}

pub open spec fn plus(ar: Arithmetic, a: Double, b: Double) -> Double {
    ar(Op::Add(a, b))
}

pub open spec fn minus(ar: Arithmetic, a: Double, b: Double) -> Double {
    ar(Op::Sub(a, b))
}

pub open spec fn times(ar: Arithmetic, a: Double, b: Double) -> Double {
    ar(Op::Mul(a, b))
}

pub open spec fn over(ar: Arithmetic, a: Double, b: Double) -> Double {
    ar(Op::Div(a, b))
}

/// `read` can be asked for every text.
pub open spec fn answers_texts<R: Fn(&String) -> Option<Double>>(read: R) -> bool {
    forall|text: &String| #[trigger] call_requires(read, (text,))
}

/// What a reader makes of each decimal text; `None` where it is no number.
pub type Reading = spec_fn(Seq<char>) -> Option<Double>;

/// `read` reads texts as `rd` does.
pub open spec fn reads<R: Fn(&String) -> Option<Double>>(read: R, rd: Reading) -> bool {
    forall|text: &String, r: Option<Double>| #[trigger]
        call_ensures(read, (text,), r) ==> r == rd(text@)
}

/// Of two numbers exactly one is the smaller, or they are of one value; with one that
/// is not a number every comparison fails.
pub proof fn comparisons_agree(a: Double, b: Double)
    ensures
        a.is_nan() || b.is_nan() ==> !a.lt(b) && !a.gt(b) && !a.equals(b) && !a.le(b) && !a.ge(b),
        !a.is_nan() && !b.is_nan() ==> {
            &&& a.lt(b) || a.gt(b) || a.equals(b)
            &&& !(a.lt(b) && a.gt(b))
            &&& !(a.lt(b) && a.equals(b))
            &&& !(a.gt(b) && a.equals(b))
            &&& a.le(b) <==> a.lt(b) || a.equals(b)
            &&& a.ge(b) <==> a.gt(b) || a.equals(b)
        },
{
}

/// The order of the numbers is transitive.
pub proof fn order_is_transitive(a: Double, b: Double, c: Double)
    requires
        a.le(b),
        b.le(c),
    ensures
        a.le(c),
        a.lt(b) || b.lt(c) ==> a.lt(c),
{
}

} // verus!
