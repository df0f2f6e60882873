//! Symbol quantization: a bounded intensity in `[0, 255]` picks a glyph from
//! an ordered ramp. With `n` glyphs and `step = 255 / n`, the first `n - 1`
//! glyphs own uniform buckets of width `step`, and the last glyph is an
//! oversized catch-all for everything from `(n - 1) * step` upward.
use vstd::arithmetic::div_mod::{
    lemma_div_is_ordered, lemma_div_by_multiple, lemma_fundamental_div_mod,
    lemma_fundamental_div_mod_converse, lemma_mod_division_less_than_divisor,
};
use vstd::arithmetic::mul::lemma_mul_inequality;
use vstd::prelude::*;

verus! {

/// Index of the glyph that intensity `v` selects from a ramp of `n` glyphs:
/// the bucket `v / step` while that lands before the last glyph, else `n - 1`.
pub open spec fn quantize_idx(v: int, n: int) -> int {
    let step = 255int / n;
    if step > 0 && v / step < n - 1 {
        v / step
    } else {
        n - 1
    }
}

/// The ten-glyph ramp used for direct 8-bit intensities, densest first.
pub open spec fn default_ramp() -> Seq<char> {
    seq!['@', '%', '#', '*', '+', '=', '~', ':', '.', ' ']
}

proof fn lemma_n_times_step_le(n: int)
    requires
        1 <= n,
    ensures
        n * (255int / n) <= 255,
        0 <= 255int / n,
{
    lemma_fundamental_div_mod(255, n);
    lemma_mod_division_less_than_divisor(255, n);
}

/// Picks the glyph of `value` from `ramp`, per bucket of width `255 / n`
/// with the last glyph as catch-all.
pub fn quantize(value: u8, ramp: &Vec<char>) -> (g: char)
    requires
        ramp.len() >= 1,
    ensures
        g == ramp@[quantize_idx(value as int, ramp.len() as int)],
{
    let n: usize = ramp.len();
    let step: usize = 255 / n;
    let v: usize = value as usize;
    let ghost ni = n as int;
    let ghost si = step as int;
    let mut i: usize = 0;
    while i + 1 < n
        invariant
            0 <= i <= n - 1 || (n == 1 && i == 0),
            n == ramp.len(),
            step == 255int / ni,
            ni == n,
            si == step,
            v == value,
            v >= i * step,
        decreases n - i,
    {
        proof {
            lemma_n_times_step_le(ni);
            lemma_mul_inequality(i as int, ni, si);
            lemma_mul_inequality(i as int + 1, ni, si);
        }
        if v >= i * step && v < (i + 1) * step {
            proof {
                assert((i as int + 1) * si == i as int * si + si) by (nonlinear_arith);
                lemma_fundamental_div_mod_converse(v as int, si, i as int, v - i * si);
            }
            return ramp[i];
        }
        i = i + 1;
    }
    proof {
        lemma_n_times_step_le(ni);
        if si > 0 {
            lemma_mul_inequality(ni - 1, ni, si);
            lemma_div_by_multiple(ni - 1, si);
            lemma_div_is_ordered((ni - 1) * si, v as int, si);
        }
    }
    ramp[n - 1]
}

/// Maps an 8-bit intensity to a glyph of the default ten-glyph ramp.
pub fn val_to_char(value: u8) -> (g: char)
    ensures
        g == default_ramp()[quantize_idx(value as int, 10)],
{
    let mut ramp: Vec<char> = Vec::new();
    ramp.push('@');
    ramp.push('%');
    ramp.push('#');
    ramp.push('*');
    ramp.push('+');
    ramp.push('=');
    ramp.push('~');
    ramp.push(':');
    ramp.push('.');
    ramp.push(' ');
    proof {
        assert(ramp@ =~= default_ramp());
    }
    quantize(value, &ramp)
}

} // verus!
