//! Exact fixed-point arithmetic.
//!
//! A real number is held as a count of units of `1 / SCALE` in a signed
//! 64-bit word. Addition and subtraction are exact until they saturate at
//! `MAX_BITS`; multiplication and division round their exact result toward
//! zero before saturating. Every operation is specified exactly over `int`,
//! so callers can reason about results to the last unit.

use vstd::prelude::*;

verus! {

/// Number of fixed-point units per 1.0.
pub const SCALE: i64 = 16777216;

/// Largest representable magnitude, in units. The range is kept symmetric
/// (`-MAX_BITS ..= MAX_BITS`) so that negation never overflows.
pub const MAX_BITS: i64 = 0x7fff_ffff_ffff_ffff;

/// Clamp a mathematical integer into the representable range.
pub open spec fn sat64(x: int) -> int {
    if x > MAX_BITS {
        MAX_BITS as int
    } else if x < -MAX_BITS {
        -MAX_BITS as int
    } else {
        x
    }
}

/// Magnitude of a mathematical integer.
pub open spec fn iabs(x: int) -> int {
    if x < 0 {
        -x
    } else {
        x
    }
}

/// Exact specification of fixed-point addition.
pub open spec fn fx_add(a: int, b: int) -> int {
    sat64(a + b)
}

/// Exact specification of fixed-point subtraction.
pub open spec fn fx_sub(a: int, b: int) -> int {
    sat64(a - b)
}

/// Exact specification of fixed-point negation.
pub open spec fn fx_neg(a: int) -> int {
    sat64(-a)
}

/// Exact specification of fixed-point multiplication: the product of the
/// magnitudes is rescaled with rounding toward zero, then the sign is
/// restored and the result saturated.
pub open spec fn fx_mul(a: int, b: int) -> int {
    let m = iabs(a) * iabs(b) / (SCALE as int);
    if (a < 0) != (b < 0) {
        sat64(-m)
    } else {
        sat64(m)
    }
}

/// Exact specification of fixed-point division (rounding toward zero).
pub open spec fn fx_div(a: int, b: int) -> int {
    let m = iabs(a) * (SCALE as int) / iabs(b);
    if (a < 0) != (b < 0) {
        sat64(-m)
    } else {
        sat64(m)
    }
}

/// A fixed-point number; the real value represented is `bits / SCALE`.
#[derive(Clone, Copy, PartialEq, Eq, Structural, Debug)]
pub struct Fx {
    pub bits: i64,
}

impl View for Fx {
    type V = int;

    open spec fn view(&self) -> int {
        self.bits as int
    }
}

impl Fx {
    /// The number zero.
    pub fn zero() -> (r: Fx)
        ensures
            r@ == 0,
    {
        Fx { bits: 0 }
    }

    /// The number one.
    pub fn one() -> (r: Fx)
        ensures
            r@ == SCALE as int,
    {
        Fx { bits: SCALE }
    }

    /// Build a value from a raw unit count.
    pub fn from_bits(b: i64) -> (r: Fx)
        ensures
            r@ == b as int,
    {
        Fx { bits: b }
    }

    /// The raw unit count.
    pub fn bits(self) -> (r: i64)
        ensures
            r as int == self@,
    {
        self.bits
    }

    /// Build a value from a whole number.
    pub fn from_int(i: i64) -> (r: Fx)
        ensures
            r@ == sat64(i as int * SCALE as int),
    {
        proof {
            assert(i64::MIN as int * SCALE as int <= i as int * SCALE as int <= i64::MAX as int
                * SCALE as int) by (nonlinear_arith)
                requires
                    i64::MIN <= i as int <= i64::MAX,
            ;
        }
        let p: i128 = (i as i128) * (SCALE as i128);
        Fx { bits: clamp128(p) }
    }

    /// Saturating addition.
    pub fn add(self, o: Fx) -> (r: Fx)
        ensures
            r@ == fx_add(self@, o@),
    {
        let s: i128 = (self.bits as i128) + (o.bits as i128);
        Fx { bits: clamp128(s) }
    }

    /// Saturating subtraction.
    pub fn sub(self, o: Fx) -> (r: Fx)
        ensures
            r@ == fx_sub(self@, o@),
    {
        let s: i128 = (self.bits as i128) - (o.bits as i128);
        Fx { bits: clamp128(s) }
    }

    /// Saturating negation.
    pub fn neg(self) -> (r: Fx)
        ensures
            r@ == fx_neg(self@),
    {
        let s: i128 = -(self.bits as i128);
        Fx { bits: clamp128(s) }
    }

    /// Saturating multiplication, rounding toward zero.
    pub fn mul(self, o: Fx) -> (r: Fx)
        ensures
            r@ == fx_mul(self@, o@),
    {
        let neg = (self.bits < 0) != (o.bits < 0);
        let ma: u128 = abs_u(self.bits) as u128;
        let mb: u128 = abs_u(o.bits) as u128;
        proof {
            assert(ma * mb <= (u64::MAX as u128) * (u64::MAX as u128) as int)
                by (nonlinear_arith)
                requires
                    ma <= u64::MAX,
                    mb <= u64::MAX,
            ;
        }
        let m: u128 = ma * mb / (SCALE as u128);
        let bits = signed_clamp(neg, m);
        proof {
            assert(ma as int * mb as int == iabs(self@) * iabs(o@));
        }
        Fx { bits }
    }

    /// Saturating division, rounding toward zero.
    pub fn div(self, o: Fx) -> (r: Fx)
        requires
            o@ != 0,
        ensures
            r@ == fx_div(self@, o@),
    {
        let neg = (self.bits < 0) != (o.bits < 0);
        let ma: u128 = abs_u(self.bits) as u128;
        let mb: u128 = abs_u(o.bits) as u128;
        proof {
            assert(ma * (SCALE as u128) <= (u64::MAX as u128) * (SCALE as u128) as int)
                by (nonlinear_arith)
                requires
                    ma <= u64::MAX,
            ;
        }
        let m: u128 = ma * (SCALE as u128) / mb;
        let bits = signed_clamp(neg, m);
        Fx { bits }
    }

    /// Strict order on the represented values.
    pub fn lt(self, o: Fx) -> (r: bool)
        ensures
            r == (self@ < o@),
    {
        self.bits < o.bits
    }

    /// Non-strict order on the represented values.
    pub fn le(self, o: Fx) -> (r: bool)
        ensures
            r == (self@ <= o@),
    {
        self.bits <= o.bits
    }
}

/// Magnitude of a signed word, exact also for the most negative value.
fn abs_u(x: i64) -> (r: u64)
    ensures
        r as int == iabs(x as int),
{
    if x < 0 {
        (-(x as i128)) as u64
    } else {
        x as u64
    }
}

/// Clamp a 128-bit intermediate into the representable range.
fn clamp128(s: i128) -> (r: i64)
    ensures
        r as int == sat64(s as int),
{
    if s > MAX_BITS as i128 {
        MAX_BITS
    } else if s < -(MAX_BITS as i128) {
        -MAX_BITS
    } else {
        s as i64
    }
}

/// Attach a sign to an unsigned magnitude and saturate.
fn signed_clamp(neg: bool, m: u128) -> (r: i64)
    ensures
        neg ==> r as int == sat64(-(m as int)),
        !neg ==> r as int == sat64(m as int),
{
    let c: i64 = if m > MAX_BITS as u128 {
        MAX_BITS
    } else {
        m as i64
    };
    if neg {
        -c
    } else {
        c
    }
}

} // verus!
