//! Arithmetic in the prime field that circuit values live in.
//!
//! Every field element is kept as a fully reduced `u64` representative,
//! strictly below [`FIELD_MODULUS`].

use vstd::prelude::*;

verus! {

/// Prime modulus of the scalar field (2^61 - 1, a Mersenne prime).
pub const FIELD_MODULUS: u64 = 2305843009213693951;

/// Field addition on reduced representatives.
pub open spec fn fadd(a: int, b: int) -> int {
    (a + b) % (FIELD_MODULUS as int)
}

/// Field multiplication on reduced representatives.
pub open spec fn fmul(a: int, b: int) -> int {
    (a * b) % (FIELD_MODULUS as int)
}

/// Field negation on a reduced representative.
pub open spec fn fneg(a: int) -> int {
    if a == 0 {
        0
    } else {
        FIELD_MODULUS as int - a
    }
}

/// Adds two field elements, reducing the sum.
pub fn field_add(a: u64, b: u64) -> (r: u64)
    requires
        a < FIELD_MODULUS,
        b < FIELD_MODULUS,
    ensures
        r == fadd(a as int, b as int),
        r < FIELD_MODULUS,
{
    let s: u128 = a as u128 + b as u128;
    (s % (FIELD_MODULUS as u128)) as u64
}

/// Multiplies two field elements, reducing the product.
pub fn field_mul(a: u64, b: u64) -> (r: u64)
    requires
        a < FIELD_MODULUS,
        b < FIELD_MODULUS,
    ensures
        r == fmul(a as int, b as int),
        r < FIELD_MODULUS,
{
    proof {
        assert((a as int) * (b as int) <= 5316911983139663482391856204266602500)
            by (nonlinear_arith)
            requires
                a < FIELD_MODULUS,
                b < FIELD_MODULUS,
        ;
    }
    let p: u128 = a as u128 * b as u128;
    (p % (FIELD_MODULUS as u128)) as u64
}

/// Negates a field element.
pub fn field_neg(a: u64) -> (r: u64)
    requires
        a < FIELD_MODULUS,
    ensures
        r == fneg(a as int),
        r < FIELD_MODULUS,
{
    if a == 0 {
        0
    } else {
        FIELD_MODULUS - a
    }
}

} // verus!
