//! Escape-time evaluation of the quadratic map `z -> z * z + c`, seeded at
//! `c` itself. The orbit runs while `|z|^2 <= 4` and fewer than `max_iter`
//! steps were taken. The count is inverted: a point that escapes after `n`
//! steps yields `max_iter - n` (earliest escape gets the largest value), and
//! a point that never escapes within the cap yields `0`.
use crate::fixed::{fx_mul, DIV_MAX, SCALE};
use vstd::arithmetic::div_mod::{
    lemma_div_is_ordered, lemma_div_pos_is_pos, lemma_fundamental_div_mod,
    lemma_fundamental_div_mod_converse, lemma_mod_division_less_than_divisor,
};
use vstd::prelude::*;

verus! {

/// A point of the complex plane, both parts in fixed-point units of `SCALE`.
#[derive(Clone, Copy, Debug, PartialEq, Eq, Structural)]
pub struct Cx {
    pub re: i64,
    pub im: i64,
}

/// Largest coordinate magnitude the evaluator accepts; keeps every product
/// taken during an orbit step inside `i64`.
pub const COORD_MAX: i64 = 0x4000_0000;

/// Bound that every orbit value stays under while the loop runs:
/// `COORD_MAX + 8 * SCALE + 1`.
pub const Z_MAX: i64 = 0x4008_0001;

/// Squared norm of `(zr, zi)` in fixed-point units: `zr^2/SCALE + zi^2/SCALE`.
pub open spec fn sq_norm(zr: int, zi: int) -> int {
    zr * zr / (SCALE as int) + zi * zi / (SCALE as int)
}

/// The continuation predicate: the orbit keeps running while `|z|^2 <= 4`.
pub open spec fn keeps_going(zr: int, zi: int) -> bool {
    sq_norm(zr, zi) <= 4 * SCALE
}

/// Real part of one application of the map: `zr^2/SCALE - zi^2/SCALE + cr`.
pub open spec fn step_re(zr: int, zi: int, cr: int) -> int {
    zr * zr / (SCALE as int) - zi * zi / (SCALE as int) + cr
}

/// Imaginary part of one application of the map: `2*zr*zi/SCALE + ci`.
pub open spec fn step_im(zr: int, zi: int, ci: int) -> int {
    (2 * zr) * zi / (SCALE as int) + ci
}

/// The orbit value after `n` applications of the map, seeded at `c`.
pub open spec fn orbit(c: Cx, n: nat) -> (int, int)
    decreases n,
{
    if n == 0 {
        (c.re as int, c.im as int)
    } else {
        let z = orbit(c, (n - 1) as nat);
        (step_re(z.0, z.1, c.re as int), step_im(z.0, z.1, c.im as int))
    }
}

/// First step index at or after `i` where the loop stops: either the cap is
/// reached or the continuation predicate fails.
pub open spec fn stop_step(c: Cx, i: nat, max_iter: nat) -> nat
    decreases max_iter - i,
{
    if i >= max_iter {
        max_iter
    } else if !keeps_going(orbit(c, i).0, orbit(c, i).1) {
        i
    } else {
        stop_step(c, (i + 1) as nat, max_iter)
    }
}

/// Number of steps the escape loop takes on `c` under the cap `max_iter`.
pub open spec fn escape_steps(c: Cx, max_iter: nat) -> nat {
    stop_step(c, 0, max_iter)
}

/// The inverted escape count: `max_iter - n` on escape after `n` steps,
/// `0` when the cap is exhausted.
pub open spec fn iter_result(c: Cx, max_iter: nat) -> nat {
    let n = escape_steps(c, max_iter);
    if n < max_iter {
        (max_iter - n) as nat
    } else {
        0
    }
}

proof fn lemma_sq_bound(x: int, s: int)
    requires
        s >= 1,
        x * x / s <= 4 * s,
        x * x >= 0,
    ensures
        -2 * s <= x <= 2 * s,
        0 <= x * x / s,
        x * x <= 4 * s * s + s - 1,
{
    lemma_fundamental_div_mod(x * x, s);
    lemma_mod_division_less_than_divisor(x * x, s);
    lemma_div_pos_is_pos(x * x, s);
    assert(x * x <= 4 * s * s + s - 1) by (nonlinear_arith)
        requires
            s >= 1,
            x * x == s * (x * x / s) + (x * x) % s,
            x * x / s <= 4 * s,
            0 <= (x * x) % s < s,
    ;
    assert(-2 * s <= x <= 2 * s) by (nonlinear_arith)
        requires
            s >= 1,
            x * x <= 4 * s * s + s - 1,
    ;
}

proof fn lemma_abs_sq_le(x: int, b: int)
    requires
        0 <= b,
        -b <= x <= b,
    ensures
        0 <= x * x <= b * b,
{
    assert(0 <= x * x <= b * b) by (nonlinear_arith)
        requires
            0 <= b,
            -b <= x <= b,
    ;
}

/// The escape-time evaluator: it holds only the iteration cap.
pub struct Ifs {
    pub max_iter: u32,
}

impl Ifs {
    /// Builds an evaluator with the given iteration cap.
    pub fn new(max_iter: u32) -> (s: Self)
        ensures
            s.max_iter == max_iter,
    {
        Ifs { max_iter }
    }

    /// Runs the escape loop on `c` and returns the inverted count: `0` for a
    /// point that stays bounded through the whole cap, `max_iter - n` for a
    /// point whose orbit leaves `|z|^2 <= 4` after `n` steps.
    pub fn iter(&self, c: Cx) -> (r: u32)
        requires
            -COORD_MAX <= c.re <= COORD_MAX,
            -COORD_MAX <= c.im <= COORD_MAX,
        ensures
            r == iter_result(c, self.max_iter as nat),
            r <= self.max_iter,
    {
        let ghost m = self.max_iter as nat;
        let mut i: u32 = 0;
        let mut zr: i64 = c.re;
        let mut zi: i64 = c.im;
        proof {
            lemma_abs_sq_le(zr as int, COORD_MAX as int);
            lemma_abs_sq_le(zi as int, COORD_MAX as int);
            lemma_div_pos_is_pos(zr * zr, SCALE as int);
            lemma_div_pos_is_pos(zi * zi, SCALE as int);
        }
        let mut ns: i64 = fx_mul(zr, zr) + fx_mul(zi, zi);
        while i < self.max_iter && ns <= 4 * SCALE
            invariant
                0 <= i <= m,
                m == self.max_iter as nat,
                -COORD_MAX <= c.re <= COORD_MAX,
                -COORD_MAX <= c.im <= COORD_MAX,
                -Z_MAX <= zr <= Z_MAX,
                -Z_MAX <= zi <= Z_MAX,
                zr == orbit(c, i as nat).0,
                zi == orbit(c, i as nat).1,
                ns == sq_norm(zr as int, zi as int),
                stop_step(c, i as nat, m) == stop_step(c, 0, m),
            decreases m - i,
        {
            proof {
                assert(zr * zr >= 0 && zi * zi >= 0) by (nonlinear_arith);
                lemma_div_pos_is_pos(zr * zr, SCALE as int);
                lemma_div_pos_is_pos(zi * zi, SCALE as int);
                lemma_sq_bound(zr as int, SCALE as int);
                lemma_sq_bound(zi as int, SCALE as int);
                assert(-(8 * SCALE * SCALE) <= (2 * zr) * zi <= 8 * SCALE * SCALE)
                    by (nonlinear_arith)
                    requires
                        -2 * SCALE <= zr <= 2 * SCALE,
                        -2 * SCALE <= zi <= 2 * SCALE,
                ;
            }
            let zr2 = fx_mul(zr, zr);
            let zi2 = fx_mul(zi, zi);
            let cross = fx_mul(2 * zr, zi);
            proof {
                lemma_div_is_ordered(-(8 * SCALE * SCALE), (2 * zr) * zi, SCALE as int);
                lemma_div_is_ordered((2 * zr) * zi, 8 * SCALE * SCALE, SCALE as int);
                lemma_fundamental_div_mod_converse(
                    -(8 * SCALE * SCALE),
                    SCALE as int,
                    -(8 * SCALE),
                    0,
                );
                lemma_fundamental_div_mod_converse(
                    8 * SCALE * SCALE,
                    SCALE as int,
                    8 * SCALE,
                    0,
                );
            }
            zr = zr2 - zi2 + c.re;
            zi = cross + c.im;
            proof {
                assert(stop_step(c, (i + 1) as nat, m) == stop_step(c, i as nat, m));
            }
            i = i + 1;
            proof {
                lemma_abs_sq_le(zr as int, Z_MAX as int);
                lemma_abs_sq_le(zi as int, Z_MAX as int);
                lemma_div_pos_is_pos(zr * zr, SCALE as int);
                lemma_div_pos_is_pos(zi * zi, SCALE as int);
            }
            ns = fx_mul(zr, zr) + fx_mul(zi, zi);
        }
        proof {
            assert(stop_step(c, i as nat, m) == i || (i == m && stop_step(c, i as nat, m) == m));
        }
        if i < self.max_iter {
            self.max_iter - i
        } else {
            0
        }
    }
}
} // verus!
