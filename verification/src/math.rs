//! Software integer division in the style of the ARM EABI runtime helpers,
//! for cores without a hardware divider.
//!
//! The subtraction loop stops as soon as the running value no longer exceeds
//! the divisor, so when any subtraction happened at all the remainder lands in
//! `(0, rhs]` rather than `[0, rhs)`. Combined with `round_up` this yields a
//! ceiling division — `lemma_round_up_is_ceil` proves it — and `uceil`
//! computes the same ceiling directly for the allocator.

use vstd::prelude::*;

verus! {

/// Ceiling division, as a mathematical function: `ceil(lhs / rhs)`.
pub open spec fn div_round_up(lhs: int, rhs: int) -> int {
    (lhs + rhs - 1) / rhs
}

/// Quotient and remainder of an unsigned software division.
#[derive(Clone, Copy, Debug, PartialEq, Eq, Structural)]
pub struct UDivModResult {
    pub quot: usize,
    pub rem: usize,
}

impl UDivModResult {
    /// Rounds the quotient up by one whenever a remainder is left over.
    pub fn round_up(&self) -> (r: usize)
        requires
            self.rem > 0 ==> self.quot < usize::MAX,
        ensures
            r == if self.rem > 0 { self.quot + 1 } else { self.quot as int },
    {
        self.quot + if self.rem > 0 { 1 } else { 0 }
    }
}

/// Quotient and remainder of a signed software division.
#[derive(Clone, Copy, Debug, PartialEq, Eq, Structural)]
pub struct IDivModResult {
    pub quot: isize,
    pub rem: isize,
}

impl IDivModResult {
    /// Rounds the quotient up by one whenever a positive remainder is left over.
    pub fn round_up(&self) -> (r: isize)
        requires
            self.rem > 0 ==> self.quot < isize::MAX,
        ensures
            r == if self.rem > 0 { self.quot + 1 } else { self.quot as int },
    {
        self.quot + if self.rem > 0 { 1 } else { 0 }
    }
}

/// Unsigned division by repeated subtraction. The loop runs while the value
/// still exceeds the divisor, so the remainder is in `(0, rhs]` whenever the
/// quotient is positive; the listed clauses pin the pair down uniquely.
pub fn __aeabi_uidivmod(lhs: usize, rhs: usize) -> (r: UDivModResult)
    requires
        rhs >= 1,
    ensures
        r.quot * rhs + r.rem == lhs,
        r.rem <= rhs,
        r.quot == 0 ==> r.rem == lhs,
        r.quot > 0 ==> r.rem > 0,
        lhs <= rhs ==> r.quot == 0,
{
    let mut cnt: usize = 0;
    let mut iter: usize = lhs;
    while iter > rhs
        invariant
            rhs >= 1,
            cnt * rhs + iter == lhs,
            cnt + iter <= lhs,
            cnt > 0 ==> iter > 0,
        decreases iter,
    {
        iter = iter - rhs;
        cnt = cnt + 1;
        proof {
            assert((cnt - 1) * rhs + rhs == cnt * rhs) by (nonlinear_arith);
        }
    }
    proof {
        if cnt > 0 && lhs <= rhs {
            assert(cnt * rhs >= rhs) by (nonlinear_arith)
                requires cnt >= 1 && rhs >= 1,
            ;
        }
    }
    UDivModResult { quot: cnt, rem: iter }
}

/// Signed division by repeated subtraction; behaves like the unsigned helper
/// for a positive divisor, and returns the input unchanged when it does not
/// exceed the divisor (so a negative value is never divided).
pub fn __aeabi_idivmod(lhs: isize, rhs: isize) -> (r: IDivModResult)
    requires
        rhs >= 1,
    ensures
        r.quot * rhs + r.rem == lhs,
        r.rem <= rhs,
        r.quot == 0 ==> r.rem == lhs,
        r.quot > 0 ==> r.rem > 0,
        lhs <= rhs ==> r.quot == 0,
{
    let mut cnt: isize = 0;
    let mut iter: isize = lhs;
    while iter > rhs
        invariant
            rhs >= 1,
            cnt * rhs + iter == lhs,
            cnt >= 0,
            cnt + iter <= lhs,
            cnt > 0 ==> iter > 0,
        decreases iter,
    {
        iter = iter - rhs;
        cnt = cnt + 1;
        proof {
            assert((cnt - 1) * rhs + rhs == cnt * rhs) by (nonlinear_arith);
        }
    }
    proof {
        if cnt > 0 && lhs <= rhs {
            assert(cnt * rhs >= rhs) by (nonlinear_arith)
                requires cnt >= 1 && rhs >= 1,
            ;
        }
    }
    IDivModResult { quot: cnt, rem: iter }
}

/// Unsigned ceiling division: the number of `rhs`-sized pieces needed to
/// cover `lhs` values.
pub fn uceil(lhs: usize, rhs: usize) -> (r: usize)
    requires
        rhs >= 1,
    ensures
        r == div_round_up(lhs as int, rhs as int),
{
    let q = lhs / rhs;
    let m = lhs % rhs;
    proof {
        assert(q * rhs + m == lhs && m < rhs) by (nonlinear_arith)
            requires rhs >= 1 && q == lhs / rhs && m == lhs % rhs,
        ;
        if m > 0 {
            assert((q * rhs + m + rhs - 1) as int / rhs as int == q + 1) by (nonlinear_arith)
                requires rhs >= 1 && 0 < m < rhs && q >= 0,
            ;
            assert(q < lhs) by (nonlinear_arith)
                requires rhs >= 1 && q * rhs + m == lhs && m > 0 && q >= 0,
            ;
        } else {
            assert((q * rhs + rhs - 1) as int / rhs as int == q as int) by (nonlinear_arith)
                requires rhs >= 1 && q >= 0,
            ;
        }
    }
    if m > 0 {
        q + 1
    } else {
        q
    }
}

/// The software division composed with `round_up` computes a ceiling
/// division: for every pair satisfying the division clauses, rounding the
/// quotient up on a leftover remainder gives `ceil(lhs / rhs)`.
pub proof fn lemma_round_up_is_ceil(lhs: usize, rhs: usize, d: UDivModResult)
    requires
        rhs >= 1,
        d.quot * rhs + d.rem == lhs,
        d.rem <= rhs,
        d.quot == 0 ==> d.rem == lhs,
        d.quot > 0 ==> d.rem > 0,
    ensures
        (if d.rem > 0 { d.quot + 1 } else { d.quot as int }) == div_round_up(lhs as int, rhs as int),
{
    if d.rem > 0 {
        assert((d.quot * rhs + d.rem + rhs - 1) as int / rhs as int == d.quot + 1) by (nonlinear_arith)
            requires rhs >= 1 && 0 < d.rem <= rhs && d.quot >= 0,
        ;
    } else {
        assert(d.quot == 0);
        assert(lhs == 0);
        assert(div_round_up(0, rhs as int) == 0) by (nonlinear_arith)
            requires rhs >= 1,
        ;
    }
}

} // verus!
