//! Ordering of IEEE 754 numbers by their bit patterns.
//!
//! Thresholds and readings are fractional numbers. They are only ever compared
//! here, and the order of two such numbers can be read off their bits.

use vstd::arithmetic::power2::*;
use vstd::prelude::*;

verus! {

/// A single-precision number, by its bit pattern.
#[derive(Debug, Clone, Copy, PartialEq, Eq, Structural)]
pub struct Float32 {
    pub bits: u32,
}

/// A double-precision number, by its bit pattern.
#[derive(Debug, Clone, Copy, PartialEq, Eq, Structural)]
pub struct Float64 {
    pub bits: u64,
}

/// The bit pattern of 0.0.
pub const ZERO: u32 = 0x0000_0000;

/// The bit pattern of 0.15.
pub const FIFTEEN_HUNDREDTHS: u32 = 0x3e19_999a;

/// The bit pattern of 0.5.
pub const HALF: u32 = 0x3f00_0000;

/// The bit pattern of 1.0.
pub const ONE: u32 = 0x3f80_0000;

/// The bit pattern of 2.0.
pub const TWO: u32 = 0x4000_0000;

/// The bit pattern of 5.0.
pub const FIVE: u32 = 0x40a0_0000;

/// The bit pattern of 10.0.
pub const TEN: u32 = 0x4120_0000;

/// The bit pattern of 20.0.
pub const TWENTY: u32 = 0x41a0_0000;

/// The bit pattern of 100.0.
pub const HUNDRED: u32 = 0x42c8_0000;

/// The bit pattern of 0.01 in double precision.
pub const ONE_HUNDREDTH: u64 = 0x3f84_7ae1_47ae_147b;

impl Float32 {
    /// The bits without the sign.
    pub open spec fn magnitude(self) -> int {
        if self.bits >= 0x8000_0000 {
            self.bits - 0x8000_0000
        } else {
            self.bits as int
        }
    }

    /// Whether this is not a number: all exponent bits are set and the fraction
    /// is not zero.
    pub open spec fn is_nan(self) -> bool {
        self.magnitude() > 0x7f80_0000
    }

    /// An integer that orders numbers as their values do; both zeroes have the
    /// same rank.
    pub open spec fn rank(self) -> int {
        if self.bits >= 0x8000_0000 {
            -self.magnitude()
        } else {
            self.magnitude()
        }
    }

    /// `self < other`; false if either is not a number.
    pub open spec fn below(self, other: Float32) -> bool {
        !self.is_nan() && !other.is_nan() && self.rank() < other.rank()
    }

    /// `self <= other`; false if either is not a number.
    pub open spec fn at_most(self, other: Float32) -> bool {
        !self.is_nan() && !other.is_nan() && self.rank() <= other.rank()
    }

    fn key(&self) -> (r: Option<i64>)
        ensures
            match r {
                Some(k) => !self.is_nan() && k == self.rank(),
                None => self.is_nan(),
            },
    {
        let negative: bool = self.bits >= 0x8000_0000;
        let magnitude: i64 = if negative {
            (self.bits - 0x8000_0000) as i64
        } else {
            self.bits as i64
        };
        if magnitude > 0x7f80_0000 {
            None
        } else if negative {
            Some(-magnitude)
        } else {
            Some(magnitude)
        }
    }

    /// Whether this number is less than the other.
    pub fn less(&self, other: Float32) -> (r: bool)
        ensures
            r == self.below(other),
    {
        match (self.key(), other.key()) {
            (Some(a), Some(b)) => a < b,
            _ => false,
        }
    }

    /// Whether this number is at least the other.
    pub fn at_least(&self, other: Float32) -> (r: bool)
        ensures
            r == other.at_most(*self),
    {
        match (self.key(), other.key()) {
            (Some(a), Some(b)) => a >= b,
            _ => false,
        }
    }
}

/// Among numbers, exactly one of "less", "equal rank" and "greater" holds.
pub proof fn law_numbers_are_totally_ordered(a: Float32, b: Float32)
    requires
        !a.is_nan(),
        !b.is_nan(),
    ensures
        a.below(b) == !b.at_most(a),
        a.at_most(b) == (a.below(b) || a.rank() == b.rank()),
{
}

/// Whether the number with the bits `a` is less than the one with the bits `b`.
pub open spec fn bits_below(a: u32, b: u32) -> bool {
    Float32 { bits: a }.below(Float32 { bits: b })
}

/// The named numbers stand in the order of their names.
pub proof fn law_named_numbers_are_in_order()
    ensures
        bits_below(ZERO, FIFTEEN_HUNDREDTHS),
        bits_below(FIFTEEN_HUNDREDTHS, HALF),
        bits_below(HALF, ONE),
        bits_below(ONE, TWO),
        bits_below(TWO, FIVE),
        bits_below(FIVE, TEN),
        bits_below(TEN, TWENTY),
        bits_below(TWENTY, HUNDRED),
{
}

/// The number that the bits stand for, times two to the power of 149. Infinity counts as
/// the number that would follow the largest one.
pub open spec fn scaled(f: Float32) -> int {
    let exponent = f.magnitude() / 0x80_0000;
    let fraction = f.magnitude() % 0x80_0000;
    let size = if exponent == 0 {
        fraction
    } else {
        (0x80_0000 + fraction) * pow2((exponent - 1) as nat)
    };
    if f.bits >= 0x8000_0000 {
        -size
    } else {
        size
    }
}

proof fn lemma_scaled_grows(a: Float32, b: Float32)
    requires
        a.bits < b.bits < 0x8000_0000,
    ensures
        0 <= scaled(a) < scaled(b),
{
    let ea = (a.bits / 0x80_0000) as int;
    let eb = (b.bits / 0x80_0000) as int;
    let fa = (a.bits % 0x80_0000) as int;
    let fb = (b.bits % 0x80_0000) as int;
    assert(a.bits == ea * 0x80_0000 + fa);
    assert(b.bits == eb * 0x80_0000 + fb);
    assert(ea <= eb);
    if eb > 0 {
        lemma_pow2_pos((eb - 1) as nat);
        let q = pow2((eb - 1) as nat);
        if ea == eb {
            assert(0 <= (0x80_0000 + fa) * q < (0x80_0000 + fb) * q) by (nonlinear_arith)
                requires
                    0 <= fa < fb,
                    q > 0,
            ;
        } else if ea == 0 {
            assert((0x80_0000 + fb) * q >= 0x80_0000) by (nonlinear_arith)
                requires
                    fb >= 0,
                    q > 0,
            ;
        } else {
            let p = pow2((ea - 1) as nat);
            lemma_pow2_pos((ea - 1) as nat);
            lemma_pow2_unfold(ea as nat);
            if ea < eb - 1 {
                lemma_pow2_strictly_increases(ea as nat, (eb - 1) as nat);
            }
            assert(2 * p <= q);
            assert(0 <= (0x80_0000 + fa) * p < (0x80_0000 + fb) * q) by (nonlinear_arith)
                requires
                    0 <= fa < 0x80_0000,
                    0 <= fb,
                    p > 0,
                    2 * p <= q,
            ;
        }
    }
}

proof fn lemma_scaled_sign(f: Float32)
    ensures
        f.bits < 0x8000_0000 ==> scaled(f) >= 0 && (f.bits > 0 ==> scaled(f) > 0),
        f.bits >= 0x8000_0000 ==> scaled(f) == -scaled(
            Float32 { bits: (f.bits - 0x8000_0000) as u32 },
        ),
        scaled(Float32 { bits: 0 }) == 0,
{
    if 0 < f.bits < 0x8000_0000 {
        lemma_scaled_grows(Float32 { bits: 0 }, f);
    }
}

/// The comparisons are those of the numbers that the bits stand for; with something that
/// is no number they are false.
pub proof fn law_comparisons_follow_the_numbers(a: Float32, b: Float32)
    ensures
        a.below(b) <==> !a.is_nan() && !b.is_nan() && scaled(a) < scaled(b),
        a.at_most(b) <==> !a.is_nan() && !b.is_nan() && scaled(a) <= scaled(b),
{
    let pa = Float32 { bits: a.magnitude() as u32 };
    let pb = Float32 { bits: b.magnitude() as u32 };
    lemma_scaled_sign(a);
    lemma_scaled_sign(b);
    lemma_scaled_sign(pa);
    lemma_scaled_sign(pb);
    if pa.bits < pb.bits {
        lemma_scaled_grows(pa, pb);
    }
    if pb.bits < pa.bits {
        lemma_scaled_grows(pb, pa);
    }
}

/// The named numbers are what their names say.
pub proof fn law_named_numbers_have_their_values()
    ensures
        scaled(Float32 { bits: ZERO }) == 0,
        2 * scaled(Float32 { bits: HALF }) == pow2(149),
        scaled(Float32 { bits: ONE }) == pow2(149),
        scaled(Float32 { bits: TWO }) == 2 * pow2(149),
        scaled(Float32 { bits: FIVE }) == 5 * pow2(149),
        scaled(Float32 { bits: TEN }) == 10 * pow2(149),
        scaled(Float32 { bits: TWENTY }) == 20 * pow2(149),
        scaled(Float32 { bits: HUNDRED }) == 100 * pow2(149),
{
    lemma_pow2_adds(24, 125);
    lemma_pow2_adds(23, 126);
    lemma_pow2_adds(22, 127);
    lemma_pow2_adds(21, 128);
    lemma_pow2_adds(20, 129);
    lemma_pow2_adds(19, 130);
    lemma_pow2_adds(17, 132);
    lemma2_to64();
    let p = pow2(149);
    assert(scaled(Float32 { bits: HALF }) == 0x80_0000 * pow2(125));
    assert(scaled(Float32 { bits: ONE }) == 0x80_0000 * pow2(126));
    assert(scaled(Float32 { bits: TWO }) == 0x80_0000 * pow2(127));
    assert(scaled(Float32 { bits: FIVE }) == 0xa0_0000 * pow2(128));
    assert(scaled(Float32 { bits: TEN }) == 0xa0_0000 * pow2(129));
    assert(scaled(Float32 { bits: TWENTY }) == 0xa0_0000 * pow2(130));
    assert(scaled(Float32 { bits: HUNDRED }) == 0xc8_0000 * pow2(132));
}

/// The two fractions are the nearest numbers to what their names say: a hundred times the
/// one, of 2^26 parts, is nearer to fifteen than any other, and a hundred times the
/// other, of 2^59 parts, to one.
pub proof fn law_named_fractions_are_nearest()
    ensures
        FIFTEEN_HUNDREDTHS / 0x80_0000 == 127 - 3,
        -50 < (0x80_0000 + FIFTEEN_HUNDREDTHS % 0x80_0000) * 100 - 15 * 0x400_0000 < 50,
        ONE_HUNDREDTH / 0x10_0000_0000_0000 == 1023 - 7,
        -50 < (0x10_0000_0000_0000 + ONE_HUNDREDTH % 0x10_0000_0000_0000) * 100
            - 0x800_0000_0000_0000 < 50,
{
}

} // verus!
