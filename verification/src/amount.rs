//! 256-bit unsigned token amounts with exact arithmetic contracts.
//!
//! An [`U256`] is four 64-bit limbs, least significant first. Every operation
//! is specified against the mathematical value [`U256::as_nat`]; additions and
//! multiplications either report overflow or are proved not to overflow.

use vstd::prelude::*;
use vstd::arithmetic::div_mod::{
    lemma_div_pos_is_pos, lemma_fundamental_div_mod, lemma_fundamental_div_mod_converse_div,
    lemma_mod_division_less_than_divisor, lemma_multiply_divide_lt,
};
use vstd::arithmetic::mul::lemma_mul_upper_bound;

verus! {

/// The number of values a 256-bit amount can take: `2^256`.
pub open spec fn limit() -> nat {
    0x1_0000_0000_0000_0000_0000_0000_0000_0000_0000_0000_0000_0000_0000_0000_0000_0000nat
}

/// A 256-bit unsigned integer, stored as four 64-bit limbs,
/// least significant limb first.
#[derive(Clone, Copy, PartialEq, Eq, Structural, Debug)]
pub struct U256 {
    pub w0: u64,
    pub w1: u64,
    pub w2: u64,
    pub w3: u64,
}

impl U256 {
    /// The mathematical value represented by the four limbs.
    pub open spec fn as_nat(self) -> nat {
        (self.w0 as nat) + (self.w1 as nat) * 0x1_0000_0000_0000_0000nat
            + (self.w2 as nat) * 0x1_0000_0000_0000_0000_0000_0000_0000_0000nat
            + (self.w3 as nat) * 0x1_0000_0000_0000_0000_0000_0000_0000_0000_0000_0000_0000_0000nat
    }

    /// The zero amount.
    pub fn zero() -> (r: U256)
        ensures
            r.as_nat() == 0,
    {
        U256 { w0: 0, w1: 0, w2: 0, w3: 0 }
    }

    /// An amount equal to the given 64-bit value.
    pub fn from_u64(v: u64) -> (r: U256)
        ensures
            r.as_nat() == v,
    {
        U256 { w0: v, w1: 0, w2: 0, w3: 0 }
    }

    /// The largest representable amount, `2^256 - 1`.
    pub fn max_value() -> (r: U256)
        ensures
            r.as_nat() == limit() - 1,
    {
        U256 { w0: u64::MAX, w1: u64::MAX, w2: u64::MAX, w3: u64::MAX }
    }

    /// Strict comparison of the mathematical values.
    pub fn lt(&self, other: &U256) -> (r: bool)
        ensures
            r == (self.as_nat() < other.as_nat()),
    {
        if self.w3 != other.w3 {
            self.w3 < other.w3
        } else if self.w2 != other.w2 {
            self.w2 < other.w2
        } else if self.w1 != other.w1 {
            self.w1 < other.w1
        } else {
            self.w0 < other.w0
        }
    }

    /// Addition that reports overflow instead of wrapping.
    pub fn checked_add(&self, other: &U256) -> (r: Option<U256>)
        ensures
            match r {
                Some(v) => v.as_nat() == self.as_nat() + other.as_nat(),
                None => self.as_nat() + other.as_nat() >= limit(),
            },
    {
        let s0: u128 = self.w0 as u128 + other.w0 as u128;
        let r0: u64 = (s0 % 0x1_0000_0000_0000_0000u128) as u64;
        let c0: u64 = (s0 / 0x1_0000_0000_0000_0000u128) as u64;
        let s1: u128 = self.w1 as u128 + other.w1 as u128 + c0 as u128;
        let r1: u64 = (s1 % 0x1_0000_0000_0000_0000u128) as u64;
        let c1: u64 = (s1 / 0x1_0000_0000_0000_0000u128) as u64;
        let s2: u128 = self.w2 as u128 + other.w2 as u128 + c1 as u128;
        let r2: u64 = (s2 % 0x1_0000_0000_0000_0000u128) as u64;
        let c2: u64 = (s2 / 0x1_0000_0000_0000_0000u128) as u64;
        let s3: u128 = self.w3 as u128 + other.w3 as u128 + c2 as u128;
        let r3: u64 = (s3 % 0x1_0000_0000_0000_0000u128) as u64;
        let c3: u64 = (s3 / 0x1_0000_0000_0000_0000u128) as u64;
        let sum = U256 { w0: r0, w1: r1, w2: r2, w3: r3 };
        if c3 == 0 {
            Some(sum)
        } else {
            None
        }
    }

    /// Addition whose callers have already ruled overflow out.
    pub fn add(&self, other: &U256) -> (r: U256)
        requires
            self.as_nat() + other.as_nat() < limit(),
        ensures
            r.as_nat() == self.as_nat() + other.as_nat(),
    {
        match self.checked_add(other) {
            Some(v) => v,
            None => {
                proof {
                    assert(false);
                }
                U256 { w0: 0, w1: 0, w2: 0, w3: 0 }
            },
        }
    }

    /// Subtraction of a smaller or equal amount; never underflows.
    pub fn sub(&self, other: &U256) -> (r: U256)
        requires
            other.as_nat() <= self.as_nat(),
        ensures
            r.as_nat() == self.as_nat() - other.as_nat(),
    {
        let t0: u128 = self.w0 as u128 + 0x1_0000_0000_0000_0000u128 - other.w0 as u128;
        let r0: u64 = (t0 % 0x1_0000_0000_0000_0000u128) as u64;
        let k0: u64 = 1 - (t0 / 0x1_0000_0000_0000_0000u128) as u64;
        let t1: u128 = self.w1 as u128 + 0x1_0000_0000_0000_0000u128 - other.w1 as u128
            - k0 as u128;
        let r1: u64 = (t1 % 0x1_0000_0000_0000_0000u128) as u64;
        let k1: u64 = 1 - (t1 / 0x1_0000_0000_0000_0000u128) as u64;
        let t2: u128 = self.w2 as u128 + 0x1_0000_0000_0000_0000u128 - other.w2 as u128
            - k1 as u128;
        let r2: u64 = (t2 % 0x1_0000_0000_0000_0000u128) as u64;
        let k2: u64 = 1 - (t2 / 0x1_0000_0000_0000_0000u128) as u64;
        let t3: u128 = self.w3 as u128 + 0x1_0000_0000_0000_0000u128 - other.w3 as u128
            - k2 as u128;
        let r3: u64 = (t3 % 0x1_0000_0000_0000_0000u128) as u64;
        let k3: u64 = 1 - (t3 / 0x1_0000_0000_0000_0000u128) as u64;
        let diff = U256 { w0: r0, w1: r1, w2: r2, w3: r3 };
        proof {
            lemma_amount_below_limit(diff);
            assert(k3 == 0);
        }
        diff
    }

    /// Multiplication by a 64-bit factor that reports overflow
    /// instead of wrapping.
    pub fn checked_mul_u64(&self, m: u64) -> (r: Option<U256>)
        ensures
            match r {
                Some(v) => v.as_nat() == self.as_nat() * m,
                None => self.as_nat() * m >= limit(),
            },
    {
        proof {
            lemma_mul_upper_bound(self.w0 as int, u64::MAX as int, m as int, u64::MAX as int);
            lemma_mul_upper_bound(self.w1 as int, u64::MAX as int, m as int, u64::MAX as int);
            lemma_mul_upper_bound(self.w2 as int, u64::MAX as int, m as int, u64::MAX as int);
            lemma_mul_upper_bound(self.w3 as int, u64::MAX as int, m as int, u64::MAX as int);
        }
        let p0: u128 = self.w0 as u128 * m as u128;
        let r0: u64 = (p0 % 0x1_0000_0000_0000_0000u128) as u64;
        let c0: u64 = (p0 / 0x1_0000_0000_0000_0000u128) as u64;
        let p1: u128 = self.w1 as u128 * m as u128 + c0 as u128;
        let r1: u64 = (p1 % 0x1_0000_0000_0000_0000u128) as u64;
        let c1: u64 = (p1 / 0x1_0000_0000_0000_0000u128) as u64;
        let p2: u128 = self.w2 as u128 * m as u128 + c1 as u128;
        let r2: u64 = (p2 % 0x1_0000_0000_0000_0000u128) as u64;
        let c2: u64 = (p2 / 0x1_0000_0000_0000_0000u128) as u64;
        let p3: u128 = self.w3 as u128 * m as u128 + c2 as u128;
        let r3: u64 = (p3 % 0x1_0000_0000_0000_0000u128) as u64;
        let c3: u64 = (p3 / 0x1_0000_0000_0000_0000u128) as u64;
        let prod = U256 { w0: r0, w1: r1, w2: r2, w3: r3 };
        proof {
            assert((r0 as int) + (r1 as int) * 0x1_0000_0000_0000_0000
                + (r2 as int) * 0x1_0000_0000_0000_0000_0000_0000_0000_0000
                + (r3 as int) * 0x1_0000_0000_0000_0000_0000_0000_0000_0000_0000_0000_0000_0000
                + (c3 as int)
                    * 0x1_0000_0000_0000_0000_0000_0000_0000_0000_0000_0000_0000_0000_0000_0000_0000_0000
                == ((self.w0 as int) + (self.w1 as int) * 0x1_0000_0000_0000_0000
                    + (self.w2 as int) * 0x1_0000_0000_0000_0000_0000_0000_0000_0000
                    + (self.w3 as int)
                        * 0x1_0000_0000_0000_0000_0000_0000_0000_0000_0000_0000_0000_0000) * (
            m as int)) by (nonlinear_arith)
                requires
                    p0 == (self.w0 as int) * (m as int),
                    p0 == (r0 as int) + (c0 as int) * 0x1_0000_0000_0000_0000,
                    p1 == (self.w1 as int) * (m as int) + (c0 as int),
                    p1 == (r1 as int) + (c1 as int) * 0x1_0000_0000_0000_0000,
                    p2 == (self.w2 as int) * (m as int) + (c1 as int),
                    p2 == (r2 as int) + (c2 as int) * 0x1_0000_0000_0000_0000,
                    p3 == (self.w3 as int) * (m as int) + (c2 as int),
                    p3 == (r3 as int) + (c3 as int) * 0x1_0000_0000_0000_0000,
            ;
            lemma_amount_below_limit(prod);
        }
        if c3 == 0 {
            Some(prod)
        } else {
            None
        }
    }

    /// Truncating division by a nonzero 64-bit divisor.
    pub fn div_u64(&self, d: u64) -> (q: U256)
        requires
            d > 0,
        ensures
            q.as_nat() == self.as_nat() / (d as nat),
    {
        let dd: u128 = d as u128;
        let c3: u128 = self.w3 as u128;
        proof {
            lemma_div_bounds(c3 as int, dd as int);
        }
        let q3: u64 = (c3 / dd) as u64;
        let r3: u64 = (c3 % dd) as u64;
        let c2: u128 = (r3 as u128) * 0x1_0000_0000_0000_0000u128 + self.w2 as u128;
        proof {
            lemma_div_bounds(c2 as int, dd as int);
        }
        let q2: u64 = (c2 / dd) as u64;
        let r2: u64 = (c2 % dd) as u64;
        let c1: u128 = (r2 as u128) * 0x1_0000_0000_0000_0000u128 + self.w1 as u128;
        proof {
            lemma_div_bounds(c1 as int, dd as int);
        }
        let q1: u64 = (c1 / dd) as u64;
        let r1: u64 = (c1 % dd) as u64;
        let c0: u128 = (r1 as u128) * 0x1_0000_0000_0000_0000u128 + self.w0 as u128;
        proof {
            lemma_div_bounds(c0 as int, dd as int);
        }
        let q0: u64 = (c0 / dd) as u64;
        let r0: u64 = (c0 % dd) as u64;
        let q = U256 { w0: q0, w1: q1, w2: q2, w3: q3 };
        proof {
            assert((c3 as int) == (d as int) * (q3 as int) + (r3 as int));
            assert((c2 as int) == (d as int) * (q2 as int) + (r2 as int));
            assert((c1 as int) == (d as int) * (q1 as int) + (r1 as int));
            assert((c0 as int) == (d as int) * (q0 as int) + (r0 as int));
            assert((d as int) * ((q0 as int) + (q1 as int) * 0x1_0000_0000_0000_0000
                + (q2 as int) * 0x1_0000_0000_0000_0000_0000_0000_0000_0000
                + (q3 as int) * 0x1_0000_0000_0000_0000_0000_0000_0000_0000_0000_0000_0000_0000)
                == (d as int) * (q0 as int) + ((d as int) * (q1 as int)) * 0x1_0000_0000_0000_0000
                + ((d as int) * (q2 as int)) * 0x1_0000_0000_0000_0000_0000_0000_0000_0000
                + ((d as int) * (q3 as int))
                    * 0x1_0000_0000_0000_0000_0000_0000_0000_0000_0000_0000_0000_0000) by (nonlinear_arith);
            assert(self.as_nat() == (d as int) * (q.as_nat() as int) + (r0 as int));
            assert((q.as_nat() as int) * (d as int) == (d as int) * (q.as_nat() as int)) by (nonlinear_arith);
            lemma_fundamental_div_mod_converse_div(
                self.as_nat() as int,
                d as int,
                q.as_nat() as int,
                r0 as int,
            );
        }
        q
    }
}

/// The quotient of a 128-bit value by a divisor that exceeds its upper
/// 64 bits fits in 64 bits, and the remainder is below the divisor.
proof fn lemma_div_bounds(c: int, d: int)
    requires
        0 < d < 0x1_0000_0000_0000_0000,
        0 <= c,
        c < d * 0x1_0000_0000_0000_0000,
    ensures
        0 <= c / d < 0x1_0000_0000_0000_0000,
        0 <= c % d < d,
        c == d * (c / d) + c % d,
{
    lemma_fundamental_div_mod(c, d);
    lemma_mod_division_less_than_divisor(c, d);
    lemma_div_pos_is_pos(c, d);
    lemma_multiply_divide_lt(c, d, 0x1_0000_0000_0000_0000);
}

/// Every amount is below `2^256`.
pub proof fn lemma_amount_below_limit(v: U256)
    ensures
        v.as_nat() < limit(),
{
}

} // verus!
