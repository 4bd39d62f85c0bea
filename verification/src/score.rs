//! Scores, weights and thresholds by their bit patterns.
//!
//! Routing compares single-precision numbers that other code computes: gate
//! probabilities, entropies, critic scores. Here such a number is its IEEE 754
//! bit pattern, and comparison is proved to be that of the numbers meant.

use vstd::arithmetic::power2::*;
use vstd::prelude::*;

verus! {

/// A single-precision number, held as its IEEE 754 `binary32` pattern.
#[derive(Clone, Copy, Debug, PartialEq, Eq, Structural)]
pub struct Score {
    pub bits: u32,
}

/// A double-precision number, held as its IEEE 754 `binary64` pattern.
#[derive(Clone, Copy, Debug, PartialEq, Eq, Structural)]
pub struct Temperature {
    pub bits: u64,
}

/// The pattern of `0.0`.
pub const BITS_ZERO: u32 = 0x0000_0000;

/// The pattern of `1.0`.
pub const BITS_ONE: u32 = 0x3F80_0000;

/// The size of the number with the 31 low bits `m` (exponent and fraction), as a
/// multiple of the smallest subnormal. Infinity counts as the next step above
/// the largest finite number.
pub open spec fn magnitude(m: nat) -> nat {
    let exponent = m / 0x80_0000;
    let fraction = m % 0x80_0000;
    if exponent == 0 {
        fraction
    } else {
        (0x80_0000 + fraction) * pow2((exponent - 1) as nat)
    }
}

impl Score {
    /// The bits below the sign.
    pub open spec fn low_bits(self) -> nat {
        if self.bits < 0x8000_0000 {
            self.bits as nat
        } else {
            (self.bits - 0x8000_0000) as nat
        }
    }

    /// Whether the pattern is not a number.
    pub open spec fn nan(self) -> bool {
        self.low_bits() > 0x7F80_0000
    }

    /// The number, as a multiple of the smallest subnormal.
    pub open spec fn value(self) -> int {
        if self.bits < 0x8000_0000 {
            magnitude(self.low_bits()) as int
        } else {
            -(magnitude(self.low_bits()) as int)
        }
    }

    /// `self < other`, which is false where either is not a number.
    pub open spec fn less(self, other: Score) -> bool {
        !self.nan() && !other.nan() && self.value() < other.value()
    }

    /// `self >= other`, which is false where either is not a number.
    pub open spec fn at_least(self, other: Score) -> bool {
        !self.nan() && !other.nan() && self.value() >= other.value()
    }

    /// Tests for a pattern that is not a number.
    pub fn is_nan(self) -> (r: bool)
        ensures
            r == self.nan(),
    {
        let low: u32 = if self.bits < 0x8000_0000 {
            self.bits
        } else {
            self.bits - 0x8000_0000
        };
        low > 0x7F80_0000
    }

    /// A signed integer that orders as the numbers do.
    fn rank(self) -> (r: i64)
        ensures
            r == if self.bits < 0x8000_0000 {
                self.low_bits() as int
            } else {
                -(self.low_bits() as int)
            },
    {
        if self.bits < 0x8000_0000 {
            self.bits as i64
        } else {
            0x8000_0000i64 - self.bits as i64
        }
    }

    /// `self < other`.
    pub fn lt(self, other: Score) -> (r: bool)
        ensures
            r == self.less(other),
    {
        proof {
            lemma_rank_orders_values(self, other);
        }
        !self.is_nan() && !other.is_nan() && self.rank() < other.rank()
    }

    /// `self >= other`.
    pub fn ge(self, other: Score) -> (r: bool)
        ensures
            r == self.at_least(other),
    {
        proof {
            lemma_rank_orders_values(self, other);
        }
        !self.is_nan() && !other.is_nan() && self.rank() >= other.rank()
    }
}

/// A larger pattern below the sign is a larger number.
pub proof fn lemma_magnitude_increases(a: nat, b: nat)
    requires
        a < b,
    ensures
        magnitude(a) < magnitude(b),
{
    let ea = a / 0x80_0000;
    let fa = a % 0x80_0000;
    let eb = b / 0x80_0000;
    let fb = b % 0x80_0000;
    assert(ea <= eb);
    if eb > 0 {
        let pb = pow2((eb - 1) as nat);
        lemma_pow2_pos((eb - 1) as nat);
        if ea == 0 {
            assert((0x80_0000 + fb) * pb >= 0x80_0000) by (nonlinear_arith)
                requires
                    pb >= 1,
                    fb >= 0,
            ;
        } else if ea == eb {
            assert((0x80_0000 + fa) * pb < (0x80_0000 + fb) * pb) by (nonlinear_arith)
                requires
                    fa < fb,
                    pb >= 1,
            ;
        } else {
            let pa = pow2((ea - 1) as nat);
            lemma_pow2_pos((ea - 1) as nat);
            lemma_pow2_unfold(ea);
            if ea < eb - 1 {
                lemma_pow2_strictly_increases(ea, (eb - 1) as nat);
            }
            assert((0x80_0000 + fa) * pa < (0x80_0000 + fb) * pb) by (nonlinear_arith)
                requires
                    0 <= fa < 0x80_0000,
                    fb >= 0,
                    pa >= 1,
                    2 * pa <= pb,
            ;
        }
    }
}

/// Zero is the only pattern of size zero.
proof fn lemma_magnitude_zero(a: nat)
    ensures
        magnitude(a) == 0 <==> a == 0,
{
    if a > 0 {
        lemma_magnitude_increases(0, a);
    }
}

/// The signed pattern orders as the numbers do.
proof fn lemma_rank_orders_values(x: Score, y: Score)
    ensures
        ({
            let a = x.low_bits() as int;
            let b = y.low_bits() as int;
            let ra = if x.bits < 0x8000_0000 {
                a
            } else {
                -a
            };
            let rb = if y.bits < 0x8000_0000 {
                b
            } else {
                -b
            };
            ra < rb <==> x.value() < y.value()
        }),
{
    let a = x.low_bits();
    let b = y.low_bits();
    lemma_magnitude_zero(a);
    lemma_magnitude_zero(b);
    if a < b {
        lemma_magnitude_increases(a, b);
    } else if b < a {
        lemma_magnitude_increases(b, a);
    }
}

impl Temperature {
    /// Whether the number is zero or below; false where it is not a number.
    pub open spec fn not_positive(self) -> bool {
        ||| self.bits == 0
        ||| 0x8000_0000_0000_0000 <= self.bits <= 0xFFF0_0000_0000_0000
    }

    /// `self <= 0.0`.
    pub fn le_zero(self) -> (r: bool)
        ensures
            r == self.not_positive(),
    {
        self.bits == 0 || (0x8000_0000_0000_0000 <= self.bits && self.bits
            <= 0xFFF0_0000_0000_0000)
    }
}

/// Comparison by the patterns: those with the sign bit clear ascend with the numbers
/// they stand for, those with it set descend, both zeros are equal, and a pattern
/// that is no number compares with nothing.
pub proof fn comparison_follows_the_bits(a: Score, b: Score)
    ensures
        a.nan() <==> 0x7F80_0000 < a.bits < 0x8000_0000 || 0xFF80_0000 < a.bits,
        a.nan() || b.nan() ==> !a.less(b) && !a.at_least(b),
        !a.nan() && !b.nan() ==> {
            &&& a.at_least(b) <==> !a.less(b)
            &&& a.bits < 0x8000_0000 && b.bits < 0x8000_0000 ==> (a.less(b) <==> a.bits < b.bits)
            &&& a.bits >= 0x8000_0000 && b.bits >= 0x8000_0000 ==> (a.less(b) <==> a.bits > b.bits)
            &&& a.bits > 0x8000_0000 && b.bits < 0x8000_0000 ==> a.less(b)
            &&& a.bits < 0x8000_0000 && b.bits >= 0x8000_0000 ==> !a.less(b)
            &&& a.bits == 0x8000_0000 && b.bits < 0x8000_0000 ==> (a.less(b) <==> b.bits > 0)
        },
{
    lemma_rank_orders_values(a, b);
}

/// A temperature with the sign bit clear is zero or below only as zero; one with it
/// set is, unless it is no number.
pub proof fn temperature_sign_follows_the_bits(t: Temperature)
    ensures
        t.bits < 0x8000_0000_0000_0000 ==> (t.not_positive() <==> t.bits == 0),
        t.bits >= 0x8000_0000_0000_0000 ==> (t.not_positive() <==> t.bits - 0x8000_0000_0000_0000
            <= 0x7FF0_0000_0000_0000),
{
}

}
