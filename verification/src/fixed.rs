//! Fixed-point scalar arithmetic. Scalars are `i64` values scaled by `SCALE`,
//! so the raw value `SCALE` stands for one; `/` in contracts is Euclidean
//! division, which for the positive divisors used here is floor division.
use vstd::arithmetic::div_mod::{
    lemma_fundamental_div_mod, lemma_fundamental_div_mod_converse,
    lemma_mod_division_less_than_divisor,
};
use vstd::prelude::*;

verus! {

/// Raw value standing for one.
pub const SCALE: i64 = 65536;

/// Largest magnitude a dividend handed to `div_floor` may have.
pub const DIV_MAX: i64 = 0x4000_0000_0000_0000;

/// Floor division of `a` by a positive divisor `d`, as `/` means it on `int`.
pub fn div_floor(a: i64, d: i64) -> (q: i64)
    requires
        1 <= d <= DIV_MAX,
        -DIV_MAX <= a <= DIV_MAX,
    ensures
        q == a as int / d as int,
{
    if a >= 0 {
        let q = (a as u64) / (d as u64);
        q as i64
    } else {
        let n = (-a) as u64;
        let du = d as u64;
        let t = (n + (du - 1)) / du;
        proof {
            let x = (n + (du - 1)) as int;
            lemma_fundamental_div_mod(x, du as int);
            lemma_mod_division_less_than_divisor(x, du as int);
            assert(du as int == d as int);
            assert(n + (du - 1) == x);
            assert(t as int == x / (du as int));
            assert(t as int * d as int == x - x % (du as int));
            assert((-(t as int)) * d as int == -(t as int * d as int)) by (nonlinear_arith);
            lemma_fundamental_div_mod_converse(
                a as int,
                d as int,
                -(t as int),
                a as int + t as int * d as int,
            );
        }
        -(t as i64)
    }
}

/// Fixed-point product: `a * b` rescaled by a floor division by `SCALE`.
pub fn fx_mul(a: i64, b: i64) -> (r: i64)
    requires
        -DIV_MAX <= a * b <= DIV_MAX,
    ensures
        r == a * b / SCALE as int,
{
    div_floor(a * b, SCALE)
}

} // verus!
