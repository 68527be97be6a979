use vstd::prelude::*;

use core::cmp::Ordering;

verus! {

/// Largest number of fractional digits a decimal value may carry.
pub const MAX_SCALE: u32 = 18;

/// `10^e`.
pub open spec fn pow10(e: nat) -> nat
    decreases e,
{
    if e == 0 {
        1
    } else {
        10 * pow10((e - 1) as nat)
    }
}

/// An exact decimal number, `mantissa / 10^scale`.
///
/// FLOAT literals are scanned digit by digit into this form, so a FLOAT
/// column stores exact decimals and every comparison on it is an exact
/// rational comparison.
#[derive(Debug, Clone, Copy, PartialEq, Eq, Structural)]
pub struct Decimal {
    /// All digits of the number, the fractional ones included.
    pub mantissa: i64,
    /// How many of the mantissa's digits lie behind the decimal point.
    pub scale: u32,
}

pub proof fn lemma_pow10_le(a: nat, b: nat)
    requires
        a <= b,
    ensures
        pow10(a) <= pow10(b),
        pow10(a) >= 1,
    decreases b,
{
    if b > 0 {
        if a == b {
            lemma_pow10_le((a - 1) as nat, (b - 1) as nat);
        } else {
            lemma_pow10_le(a, (b - 1) as nat);
        }
    }
}

pub proof fn lemma_pow10_18()
    ensures
        pow10(18) == 1000000000000000000,
{
    reveal_with_fuel(pow10, 20);
}

impl Decimal {
    /// A decimal the engine can compare without overflowing.
    pub open spec fn wf(self) -> bool {
        self.scale <= MAX_SCALE
    }

    /// Numerically strictly below `other`.
    pub open spec fn spec_lt(self, other: Decimal) -> bool {
        self.mantissa * pow10(other.scale as nat) < other.mantissa * pow10(self.scale as nat)
    }

    /// Numerically equal to `other`.
    pub open spec fn spec_eq(self, other: Decimal) -> bool {
        self.mantissa * pow10(other.scale as nat) == other.mantissa * pow10(self.scale as nat)
    }

    pub fn new(mantissa: i64, scale: u32) -> (r: Decimal)
        requires
            scale <= MAX_SCALE,
        ensures
            r == (Decimal { mantissa, scale }),
            r.wf(),
    {
        Decimal { mantissa, scale }
    }

    /// Three-way exact numeric comparison.
    pub fn cmp_dec(&self, other: &Decimal) -> (r: Ordering)
        requires
            self.wf(),
            other.wf(),
        ensures
            (r == Ordering::Less) == self.spec_lt(*other),
            (r == Ordering::Greater) == other.spec_lt(*self),
            (r == Ordering::Equal) == self.spec_eq(*other),
    {
        let pa: u64 = pow10_u64(other.scale);
        let pb: u64 = pow10_u64(self.scale);
        proof {
            lemma_pow10_le(other.scale as nat, 18);
            lemma_pow10_le(self.scale as nat, 18);
            lemma_pow10_18();
            assert((self.mantissa as int) * (pa as int) < 0x40000000000000000000000000000000
                && (self.mantissa as int) * (pa as int) > -0x40000000000000000000000000000000)
                by (nonlinear_arith)
                requires
                    -0x8000000000000000 <= self.mantissa as int <= 0x7fffffffffffffff,
                    0 <= pa as int <= 1000000000000000000,
            ;
            assert((other.mantissa as int) * (pb as int) < 0x40000000000000000000000000000000
                && (other.mantissa as int) * (pb as int) > -0x40000000000000000000000000000000)
                by (nonlinear_arith)
                requires
                    -0x8000000000000000 <= other.mantissa as int <= 0x7fffffffffffffff,
                    0 <= pb as int <= 1000000000000000000,
            ;
        }
        let lhs: i128 = (self.mantissa as i128) * (pa as i128);
        let rhs: i128 = (other.mantissa as i128) * (pb as i128);
        if lhs < rhs {
            Ordering::Less
        } else if rhs < lhs {
            Ordering::Greater
        } else {
            Ordering::Equal
        }
    }
}

/// `10^e` as a machine word.
pub fn pow10_u64(e: u32) -> (r: u64)
    requires
        e <= 18,
    ensures
        r == pow10(e as nat),
{
    let mut r: u64 = 1;
    let mut i: u32 = 0;
    while i < e
        invariant
            i <= e,
            e <= 18,
            r == pow10(i as nat),
        decreases e - i,
    {
        proof {
            lemma_pow10_le(i as nat, 17);
            lemma_pow10_18();
        }
        r = r * 10;
        i = i + 1;
    }
    r
}

} // verus!
