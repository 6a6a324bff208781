use vstd::prelude::*;

verus! {

/// Two to the power of 64: what half a limb can hold, plus one.
pub const HALF: u128 = 0x1_0000_0000_0000_0000;

/// A natural number of up to 256 bits, in two limbs of 128 bits.
#[derive(Debug, Clone, Copy, PartialEq, Eq, Structural)]
pub struct Double {
    /// The upper 128 bits.
    pub high: u128,
    /// The lower 128 bits.
    pub low: u128,
}

impl Double {
    /// The number that the limbs stand for.
    pub open spec fn value(self) -> int {
        (self.high as int) * 0x1_0000_0000_0000_0000_0000_0000_0000_0000int + (self.low as int)
    }
}

/// A natural number of up to 384 bits, in three limbs of 128 bits.
#[derive(Debug, Clone, Copy, PartialEq, Eq, Structural)]
pub struct Triple {
    /// The upper 128 bits.
    pub high: u128,
    /// The middle 128 bits.
    pub mid: u128,
    /// The lower 128 bits.
    pub low: u128,
}

impl Triple {
    /// The number that the limbs stand for.
    pub open spec fn value(self) -> int {
        (self.high as int)
            * 0x1_0000_0000_0000_0000_0000_0000_0000_0000_0000_0000_0000_0000_0000_0000_0000_0000int
            + (self.mid as int) * 0x1_0000_0000_0000_0000_0000_0000_0000_0000int + (
        self.low as int)
    }

    /// Tells whether this number is at most the other.
    pub fn at_most(&self, other: &Triple) -> (r: bool)
        ensures
            r == (self.value() <= other.value()),
    {
        if self.high != other.high {
            self.high < other.high
        } else if self.mid != other.mid {
            self.mid < other.mid
        } else {
            self.low <= other.low
        }
    }
}

/// Multiplies two limbs.
pub fn product(a: u128, b: u128) -> (p: Double)
    ensures
        p.value() == a * b,
{
    let a1 = a / HALF;
    let a0 = a % HALF;
    let b1 = b / HALF;
    let b0 = b % HALF;
    assert(a0 * b0 <= 0xffff_ffff_ffff_ffff * 0xffff_ffff_ffff_ffff && a0 * b1
        <= 0xffff_ffff_ffff_ffff * 0xffff_ffff_ffff_ffff && a1 * b0 <= 0xffff_ffff_ffff_ffff
        * 0xffff_ffff_ffff_ffff && a1 * b1 <= 0xffff_ffff_ffff_ffff * 0xffff_ffff_ffff_ffff)
        by (nonlinear_arith)
        requires
            0 <= a0 <= 0xffff_ffff_ffff_ffff,
            0 <= a1 <= 0xffff_ffff_ffff_ffff,
            0 <= b0 <= 0xffff_ffff_ffff_ffff,
            0 <= b1 <= 0xffff_ffff_ffff_ffff,
    ;
    let p00 = a0 * b0;
    let p01 = a0 * b1;
    let p10 = a1 * b0;
    let p11 = a1 * b1;
    let cross = p00 / HALF + p01 % HALF + p10 % HALF;
    let low = p00 % HALF + (cross % HALF) * HALF;
    let high = p11 + p01 / HALF + p10 / HALF + cross / HALF;
    proof {
        let h = HALF as int;
        assert(a * b == (p11 * h) * h + (p01 + p10) * h + p00) by (nonlinear_arith)
            requires
                a == a1 * h + a0,
                b == b1 * h + b0,
                p00 == a0 * b0,
                p01 == a0 * b1,
                p10 == a1 * b0,
                p11 == a1 * b1,
        ;
        assert((p11 * h) * h == p11 * 0x1_0000_0000_0000_0000_0000_0000_0000_0000int)
            by (nonlinear_arith)
            requires
                h == 0x1_0000_0000_0000_0000,
        ;
    }
    Double { high, low }
}

/// Multiplies a number of two limbs by a limb.
pub fn scale(x: Double, k: u128) -> (t: Triple)
    ensures
        t.value() == x.value() * k,
{
    let p = product(x.low, k);
    let q = product(x.high, k);
    proof {
        assert(x.high * k <= 0xffff_ffff_ffff_ffff_ffff_ffff_ffff_ffff
            * 0xffff_ffff_ffff_ffff_ffff_ffff_ffff_ffff) by (nonlinear_arith)
            requires
                0 <= x.high <= 0xffff_ffff_ffff_ffff_ffff_ffff_ffff_ffff,
                0 <= k <= 0xffff_ffff_ffff_ffff_ffff_ffff_ffff_ffff,
        ;
    }
    let room = u128::MAX - q.low;
    let mid: u128;
    let high: u128;
    if p.high > room {
        mid = p.high - room - 1;
        high = q.high + 1;
    } else {
        mid = p.high + q.low;
        high = q.high;
    }
    proof {
        let w = 0x1_0000_0000_0000_0000_0000_0000_0000_0000int;
        assert(x.value() * k == (x.high * k) * w + x.low * k) by (nonlinear_arith)
            requires
                x.value() == x.high * w + x.low,
        ;
    }
    Triple { high, mid, low: p.low }
}

} // verus!
