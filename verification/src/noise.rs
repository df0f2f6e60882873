//! Coherent gradient noise over a 2D lattice: 256 near-unit gradient vectors
//! and a 256-entry permutation table, both filled deterministically from a
//! seeded random source; a single-level permutation hash picks the corner
//! gradients, and sampling interpolates their directional derivatives with a
//! smoothstep weight.
use crate::fixed::{div_floor, SCALE};
use crate::rng::{mix, next_state, Rand64};
use vstd::arithmetic::div_mod::{
    lemma_div_by_multiple, lemma_div_is_ordered, lemma_div_multiples_vanish, lemma_div_pos_is_pos,
    lemma_fundamental_div_mod, lemma_fundamental_div_mod_converse,
    lemma_mod_division_less_than_divisor,
};
use vstd::prelude::*;

verus! {

/// A 2D vector in fixed-point units of `SCALE`; serves both as a point and
/// as a gradient direction.
#[derive(Clone, Copy, Debug, PartialEq, Eq, Structural)]
pub struct Vec2 {
    pub x: i64,
    pub y: i64,
}

/// Lower edge of the squared-norm window of a table gradient:
/// `SCALE * SCALE - (4 * SCALE + 2)`.
pub const NORM_SQ_LO: i64 = 4294705150;

/// Upper edge of the squared-norm window of a table gradient:
/// `SCALE * SCALE + (4 * SCALE + 2)`.
pub const NORM_SQ_HI: i64 = 4295229442;

/// A vector whose squared norm lies within the unit window: in fixed-point
/// units, its length differs from one by at most a few parts in `SCALE`.
pub open spec fn unit_ish(x: int, y: int) -> bool {
    NORM_SQ_LO <= x * x + y * y <= NORM_SQ_HI
}

/// The circle parameter drawn for a gradient: a value in `[-SCALE, SCALE]`.
pub open spec fn grad_t(s: u64) -> int {
    mix(next_state(s)) % 131073u64 - 65536
}

/// Whether the gradient is reflected into the left half of the circle.
pub open spec fn grad_flip(s: u64) -> bool {
    mix(next_state(next_state(s))) % 2u64 == 1u64
}

/// Generator state after the two draws that one gradient takes.
pub open spec fn state_after_grad(s: u64) -> u64 {
    next_state(next_state(s))
}

/// The gradient drawn from state `s`: the rational point of the unit circle
/// at parameter `t`, `((S^2 - t^2) / (S^2 + t^2), 2 t S / (S^2 + t^2))`,
/// scaled by `SCALE` and rounded by floor division.
pub open spec fn grad_of(s: u64) -> (int, int) {
    let t = grad_t(s);
    let d = 65536 * 65536 + t * t;
    let gx = 65536 * (65536 * 65536 - t * t) / d;
    let gy = 2 * t * 65536 * 65536 / d;
    if grad_flip(s) {
        (-gx, gy)
    } else {
        (gx, gy)
    }
}

proof fn lemma_grad_props(t: int, d: int, gx: int, gy: int)
    requires
        -65536 <= t <= 65536,
        d == 65536 * 65536 + t * t,
        gx == 65536 * (65536 * 65536 - t * t) / d,
        gy == 2 * t * 65536 * 65536 / d,
    ensures
        0 <= gx <= 65536,
        -65536 <= gy <= 65536,
        unit_ish(gx, gy),
        unit_ish(-gx, gy),
{
    let s = 65536int;
    let xn = s * (s * s - t * t);
    let yn = 2 * t * s * s;
    assert(0 <= t * t <= s * s) by (nonlinear_arith)
        requires
            -s <= t <= s,
            s == 65536,
    ;
    assert(0 <= xn <= s * d) by (nonlinear_arith)
        requires
            0 <= t * t <= s * s,
            d == s * s + t * t,
            xn == s * (s * s - t * t),
            s == 65536,
    ;
    assert(-(s * d) <= yn <= s * d) by (nonlinear_arith)
        requires
            -s <= t <= s,
            d == s * s + t * t,
            yn == 2 * t * s * s,
            s == 65536,
    ;
    lemma_div_pos_is_pos(xn, d);
    lemma_div_is_ordered(xn, s * d, d);
    lemma_div_is_ordered(-(s * d), yn, d);
    lemma_div_is_ordered(yn, s * d, d);
    assert(s * d == s * d + 0 && (-s) * d == -(s * d)) by (nonlinear_arith);
    lemma_fundamental_div_mod_converse(s * d, d, s, 0);
    lemma_fundamental_div_mod_converse(-(s * d), d, -s, 0);
    lemma_fundamental_div_mod(xn, d);
    lemma_mod_division_less_than_divisor(xn, d);
    lemma_fundamental_div_mod(yn, d);
    lemma_mod_division_less_than_divisor(yn, d);
    let rx = xn % d;
    let ry = yn % d;
    let a = s * s;
    let b = t * t;
    assert((a - b) * (a - b) + 4 * b * a == (a + b) * (a + b)) by (nonlinear_arith);
    assert(xn * xn == a * ((a - b) * (a - b))) by (nonlinear_arith)
        requires
            xn == s * (s * s - t * t),
            a == s * s,
            b == t * t,
    ;
    assert(yn * yn == a * (4 * b * a)) by (nonlinear_arith)
        requires
            yn == 2 * t * s * s,
            a == s * s,
            b == t * t,
    ;
    assert(a * ((a - b) * (a - b)) + a * (4 * b * a) == a * ((a + b) * (a + b))) by (nonlinear_arith)
        requires
            (a - b) * (a - b) + 4 * b * a == (a + b) * (a + b),
    ;
    assert(xn * xn + yn * yn == a * (d * d)) by (nonlinear_arith)
        requires
            xn * xn + yn * yn == a * ((a + b) * (a + b)),
            d == a + b,
    ;
    assert(0 <= xn * rx <= (s * d) * d) by (nonlinear_arith)
        requires
            0 <= xn <= s * d,
            0 <= rx < d,
            0 < d,
    ;
    assert(-((s * d) * d) <= yn * ry <= (s * d) * d) by (nonlinear_arith)
        requires
            -(s * d) <= yn <= s * d,
            0 <= ry < d,
            0 < d,
    ;
    assert(0 <= rx * rx + ry * ry <= 2 * (d * d)) by (nonlinear_arith)
        requires
            0 <= rx < d,
            0 <= ry < d,
    ;
    assert((d * gx) * (d * gx) + (d * gy) * (d * gy) == (d * d) * (gx * gx + gy * gy))
        by (nonlinear_arith);
    assert((xn - rx) * (xn - rx) + (yn - ry) * (yn - ry) == xn * xn + yn * yn - 2 * (xn * rx)
        - 2 * (yn * ry) + (rx * rx + ry * ry)) by (nonlinear_arith);
    assert(d * gx == xn - rx && d * gy == yn - ry);
    assert((d * d) * (gx * gx + gy * gy) >= a * (d * d) - 4 * (s * d) * d) by (nonlinear_arith)
        requires
            (d * gx) * (d * gx) + (d * gy) * (d * gy) == (d * d) * (gx * gx + gy * gy),
            d * gx == xn - rx,
            d * gy == yn - ry,
            (xn - rx) * (xn - rx) + (yn - ry) * (yn - ry) == xn * xn + yn * yn - 2 * (xn * rx)
                - 2 * (yn * ry) + (rx * rx + ry * ry),
            xn * xn + yn * yn == a * (d * d),
            0 <= xn * rx <= (s * d) * d,
            -((s * d) * d) <= yn * ry <= (s * d) * d,
            0 <= rx * rx + ry * ry <= 2 * (d * d),
    ;
    assert((d * d) * (gx * gx + gy * gy) <= a * (d * d) + 4 * (s * d) * d + 2 * (d * d))
        by (nonlinear_arith)
        requires
            (d * gx) * (d * gx) + (d * gy) * (d * gy) == (d * d) * (gx * gx + gy * gy),
            d * gx == xn - rx,
            d * gy == yn - ry,
            (xn - rx) * (xn - rx) + (yn - ry) * (yn - ry) == xn * xn + yn * yn - 2 * (xn * rx)
                - 2 * (yn * ry) + (rx * rx + ry * ry),
            xn * xn + yn * yn == a * (d * d),
            0 <= xn * rx <= (s * d) * d,
            -((s * d) * d) <= yn * ry <= (s * d) * d,
            0 <= rx * rx + ry * ry <= 2 * (d * d),
    ;
    assert(a - 4 * s - 2 <= gx * gx + gy * gy <= a + 4 * s + 2) by (nonlinear_arith)
        requires
            0 < d,
            (d * d) * (gx * gx + gy * gy) >= a * (d * d) - 4 * (s * d) * d,
            (d * d) * (gx * gx + gy * gy) <= a * (d * d) + 4 * (s * d) * d + 2 * (d * d),
    ;
    assert((-gx) * (-gx) == gx * gx) by (nonlinear_arith);
}

/// Draws one near-unit gradient from `rng`: the result and the new state are
/// functions of the entry state alone.
pub fn make_gradient(rng: &mut Rand64) -> (g: Vec2)
    ensures
        final(rng).state == state_after_grad(old(rng).state),
        (g.x as int, g.y as int) == grad_of(old(rng).state),
        unit_ish(g.x as int, g.y as int),
        -SCALE <= g.x <= SCALE,
        -SCALE <= g.y <= SCALE,
{
    let t_raw = rng.next_below(131073);
    let t: i64 = (t_raw as i64) - SCALE;
    let flip = rng.next_below(2);
    proof {
        assert(0 <= t * t <= 65536 * 65536) by (nonlinear_arith)
            requires
                -65536 <= t <= 65536,
        ;
        assert(0 <= 65536 * (65536 * 65536 - t * t) <= 65536 * 65536 * 65536)
            by (nonlinear_arith)
            requires
                0 <= t * t <= 65536 * 65536,
        ;
        assert(-(65536 * 65536 * 65536 * 2) <= 2 * t * 65536 * 65536 <= 65536 * 65536 * 65536
            * 2) by (nonlinear_arith)
            requires
                -65536 <= t <= 65536,
        ;
    }
    let d: i64 = SCALE * SCALE + t * t;
    let num_x: i64 = SCALE * (SCALE * SCALE - t * t);
    let num_y: i64 = 2 * t * SCALE * SCALE;
    let gx0 = div_floor(num_x, d);
    let gy = div_floor(num_y, d);
    proof {
        lemma_grad_props(t as int, d as int, gx0 as int, gy as int);
    }
    let gx = if flip == 1 { -gx0 } else { gx0 };
    Vec2 { x: gx, y: gy }
}

/// The gradient drawn from state `s` as a vector value.
pub open spec fn grad_vec_of(s: u64) -> Vec2 {
    Vec2 { x: grad_of(s).0 as i64, y: grad_of(s).1 as i64 }
}

/// The sequence of `n` gradients drawn starting at state `s`, with the state
/// left after them.
pub open spec fn grads_built(s: u64, n: nat) -> (Seq<Vec2>, u64)
    decreases n,
{
    if n == 0 {
        (Seq::empty(), s)
    } else {
        let rest = grads_built(state_after_grad(s), (n - 1) as nat);
        (seq![grad_vec_of(s)] + rest.0, rest.1)
    }
}

/// The identity table: entry `i` holds `i`.
pub open spec fn identity_table() -> Seq<u8> {
    Seq::new(256, |i: int| i as u8)
}

/// The table left after shuffling positions `i` down to `1`: each position
/// in turn is swapped with a drawn position at or below it.
pub open spec fn shuffle_rec(s: Seq<u8>, st: u64, i: nat) -> (Seq<u8>, u64)
    decreases i,
{
    if i == 0 {
        (s, st)
    } else {
        let j = mix(next_state(st)) % ((i + 1) as u64);
        let s2 = s.update(i as int, s[j as int]).update(j as int, s[i as int]);
        shuffle_rec(s2, next_state(st), (i - 1) as nat)
    }
}

/// Value `v` stands somewhere in the table.
pub open spec fn appears(s: Seq<u8>, v: int) -> bool {
    exists|i: int| 0 <= i < 256 && #[trigger] s[i] as int == v
}

/// Every value `0..=255` appears exactly once: the table is a bijection.
pub open spec fn is_permutation(s: Seq<u8>) -> bool {
    &&& s.len() == 256
    &&& forall|i: int, j: int|
        0 <= i < 256 && 0 <= j < 256 && i != j ==> s[i] != s[j]
    &&& forall|v: int| 0 <= v < 256 ==> #[trigger] appears(s, v)
}

/// The noise field: 256 near-unit gradients and a shuffled permutation
/// table, both immutable after construction.
pub struct GradientNoiseField {
    pub grads: Vec<Vec2>,
    pub perm: Vec<u8>,
}

impl GradientNoiseField {
    /// Both tables have their full length and every gradient is near-unit.
    pub open spec fn wf(&self) -> bool {
        &&& self.grads@.len() == 256
        &&& self.perm@.len() == 256
        &&& forall|q: int|
            0 <= q < 256 ==> {
                &&& unit_ish(#[trigger] self.grads@[q].x as int, self.grads@[q].y as int)
                &&& -SCALE <= self.grads@[q].x <= SCALE
                &&& -SCALE <= self.grads@[q].y <= SCALE
            }
    }

    /// Builds the field from a seed: the gradient table is drawn first, then
    /// the identity table is shuffled. Both tables are functions of the seed
    /// alone, which the last two clauses pin down.
    #[verifier::rlimit(80)]
    pub fn new(seed: u64) -> (f: Self)
        ensures
            f.wf(),
            is_permutation(f.perm@),
            f.grads@ == grads_built(seed, 256).0,
            f.perm@ == shuffle_rec(identity_table(), grads_built(seed, 256).1, 255).0,
    {
        let mut rng = Rand64::new(seed);
        let mut grads: Vec<Vec2> = Vec::new();
        let mut k: usize = 0;
        while k < 256
            invariant
                k <= 256,
                grads@.len() == k,
                forall|q: int|
                    0 <= q < k ==> {
                        &&& unit_ish(#[trigger] grads@[q].x as int, grads@[q].y as int)
                        &&& -SCALE <= grads@[q].x <= SCALE
                        &&& -SCALE <= grads@[q].y <= SCALE
                    },
                grads@ + grads_built(rng.state, (256 - k) as nat).0 == grads_built(seed, 256).0,
                grads_built(rng.state, (256 - k) as nat).1 == grads_built(seed, 256).1,
            decreases 256 - k,
        {
            let ghost st0 = rng.state;
            let ghost pre = grads@;
            let g = make_gradient(&mut rng);
            grads.push(g);
            proof {
                assert(g == grad_vec_of(st0));
                assert(grads_built(st0, (256 - k) as nat).0 == seq![grad_vec_of(st0)]
                    + grads_built(rng.state, (255 - k) as nat).0);
                assert(grads@ + grads_built(rng.state, (255 - k) as nat).0 =~= pre
                    + grads_built(st0, (256 - k) as nat).0);
            }
            k = k + 1;
        }
        proof {
            assert(grads@ + grads_built(rng.state, 0).0 =~= grads@);
        }
        let mut perm: Vec<u8> = Vec::new();
        let mut v: usize = 0;
        while v < 256
            invariant
                v <= 256,
                perm@.len() == v,
                forall|q: int| 0 <= q < v ==> perm@[q] == q as u8,
            decreases 256 - v,
        {
            perm.push(v as u8);
            v = v + 1;
        }
        proof {
            assert(perm@ =~= identity_table());
            assert forall|p: int| 0 <= p < 256 implies #[trigger] appears(perm@, p) by {
                assert(perm@[p] as int == p);
            }
        }
        let ghost st1 = rng.state;
        let mut i: usize = 255;
        while i >= 1
            invariant
                i <= 255,
                perm@.len() == 256,
                is_permutation(perm@),
                shuffle_rec(perm@, rng.state, i as nat) == shuffle_rec(
                    identity_table(),
                    st1,
                    255,
                ),
            decreases i,
        {
            let ghost old_p = perm@;
            let ghost st_in = rng.state;
            let j = rng.next_below((i as u64) + 1) as usize;
            let a = perm[i];
            let b = perm[j];
            perm[i] = b;
            perm[j] = a;
            proof {
                assert(perm@ == old_p.update(i as int, old_p[j as int]).update(
                    j as int,
                    old_p[i as int],
                ));
                assert(shuffle_rec(old_p, st_in, i as nat) == shuffle_rec(
                    perm@,
                    rng.state,
                    (i - 1) as nat,
                ));
                assert forall|p: int, q: int|
                    0 <= p < 256 && 0 <= q < 256 && p != q implies perm@[p] != perm@[q] by {
                    let sp = if p == j as int {
                        i as int
                    } else if p == i as int {
                        j as int
                    } else {
                        p
                    };
                    let sq = if q == j as int {
                        i as int
                    } else if q == i as int {
                        j as int
                    } else {
                        q
                    };
                    assert(perm@[p] == old_p[sp]);
                    assert(perm@[q] == old_p[sq]);
                }
                assert forall|w: int| 0 <= w < 256 implies #[trigger] appears(perm@, w) by {
                    assert(appears(old_p, w));
                    let p0 = choose|p0: int| 0 <= p0 < 256 && #[trigger] old_p[p0] as int == w;
                    if p0 == i as int {
                        assert(perm@[j as int] as int == w);
                    } else if p0 == j as int {
                        assert(perm@[i as int] as int == w);
                    } else {
                        assert(perm@[p0] as int == w);
                    }
                }
            }
            i = i - 1;
        }
        GradientNoiseField { grads, perm }
    }
}

/// Largest coordinate magnitude `sample` accepts.
pub const XY_MAX: i64 = 0x100_0000_0000;

/// The corner gradient of lattice point `(ix, iy)`: a single-level hash, the
/// two wrapped permutation entries added and wrapped again.
pub open spec fn spec_gradient_at(grads: Seq<Vec2>, perm: Seq<u8>, ix: i64, iy: i64) -> Vec2 {
    let a = ix & 255;
    let b = iy & 255;
    let sum = perm[a as int] as int + perm[b as int] as int;
    grads[sum % 256]
}

/// Scaled dot product of a gradient with an offset vector.
pub open spec fn spec_dot(gx: int, gy: int, dx: int, dy: int) -> int {
    (gx * dx + gy * dy) / 65536
}

/// The smoothstep weight `t * t * (3 - 2 * t)` in fixed-point units.
pub open spec fn spec_smooth(t: int) -> int {
    t * t * (3 * 65536 - 2 * t) / (65536int * 65536)
}

/// Linear interpolation from `a` to `b` by weight `w` in `[0, SCALE]`.
pub open spec fn spec_lerp(a: int, b: int, w: int) -> int {
    a + (b - a) * w / 65536
}

/// The sampled value at `(x, y)`: the four corner gradients' directional
/// derivatives, blended along x with the smoothstep of the x offset and then
/// along y with the smoothstep of the y offset anchored at the corner-0
/// origin.
pub open spec fn spec_sample(grads: Seq<Vec2>, perm: Seq<u8>, x: i64, y: i64) -> int {
    let x0 = x as int / 65536;
    let y0 = y as int / 65536;
    let dx = x - 65536 * x0;
    let dy = y - 65536 * y0;
    let g00 = spec_gradient_at(grads, perm, x0 as i64, y0 as i64);
    let g10 = spec_gradient_at(grads, perm, (x0 + 1) as i64, y0 as i64);
    let g01 = spec_gradient_at(grads, perm, x0 as i64, (y0 + 1) as i64);
    let g11 = spec_gradient_at(grads, perm, (x0 + 1) as i64, (y0 + 1) as i64);
    let v00 = spec_dot(g00.x as int, g00.y as int, dx, dy);
    let v10 = spec_dot(g10.x as int, g10.y as int, dx - 65536, dy);
    let v01 = spec_dot(g01.x as int, g01.y as int, dx, dy - 65536);
    let v11 = spec_dot(g11.x as int, g11.y as int, dx - 65536, dy - 65536);
    let fw = spec_smooth(dx);
    let gw = spec_smooth(dy);
    spec_lerp(spec_lerp(v00, v10, fw), spec_lerp(v01, v11, fw), gw)
}

/// A bitwise wrap by 255 lands in the table.
pub proof fn lemma_mask255(v: i64)
    ensures
        0 <= (v & 255) < 256,
{
    assert(0 <= (v & 255) < 256) by (bit_vector);
}

/// Scaled dot product of a near-unit gradient with an in-cell offset.
fn dot_scaled(g: Vec2, dx: i64, dy: i64) -> (r: i64)
    requires
        -SCALE <= g.x <= SCALE,
        -SCALE <= g.y <= SCALE,
        -SCALE <= dx <= SCALE,
        -SCALE <= dy <= SCALE,
    ensures
        r == spec_dot(g.x as int, g.y as int, dx as int, dy as int),
        -2 * SCALE <= r <= 2 * SCALE,
{
    proof {
        assert(-(65536 * 65536) <= g.x * dx <= 65536 * 65536 && -(65536 * 65536) <= g.y * dy
            <= 65536 * 65536) by (nonlinear_arith)
            requires
                -65536 <= g.x <= 65536,
                -65536 <= g.y <= 65536,
                -65536 <= dx <= 65536,
                -65536 <= dy <= 65536,
        ;
    }
    let num = g.x * dx + g.y * dy;
    proof {
        lemma_div_is_ordered(-(2 * 65536 * 65536), num as int, 65536);
        lemma_div_is_ordered(num as int, 2int * 65536 * 65536, 65536);
        lemma_fundamental_div_mod_converse(-(2 * 65536 * 65536), 65536, -(2 * 65536), 0);
        lemma_fundamental_div_mod_converse(2int * 65536 * 65536, 65536, 2int * 65536, 0);
    }
    div_floor(num, SCALE)
}

/// The smoothstep weight of an in-cell offset, in `[0, SCALE]`.
fn smooth(t: i64) -> (r: i64)
    requires
        0 <= t <= SCALE,
    ensures
        r == spec_smooth(t as int),
        0 <= r <= SCALE,
{
    proof {
        assert(0 <= t * t <= 65536int * 65536) by (nonlinear_arith)
            requires
                0 <= t <= 65536,
        ;
        assert(0 <= t * t * (3 * 65536 - 2 * t) <= 65536int * 65536 * 65536) by (nonlinear_arith)
            requires
                0 <= t <= 65536,
        ;
    }
    let cub = t * t * (3 * SCALE - 2 * t);
    proof {
        lemma_div_pos_is_pos(cub as int, 65536int * 65536);
        lemma_div_is_ordered(cub as int, 65536int * 65536 * 65536, 65536int * 65536);
        lemma_fundamental_div_mod_converse(65536int * 65536 * 65536, 65536int * 65536, 65536, 0);
    }
    div_floor(cub, SCALE * SCALE)
}

/// Interpolates from `a` to `b`; the result stays between them.
fn lerp(a: i64, b: i64, w: i64) -> (r: i64)
    requires
        -393217 <= a <= 393217,
        -393217 <= b <= 393217,
        0 <= w <= SCALE,
    ensures
        r == spec_lerp(a as int, b as int, w as int),
        a <= b ==> a <= r <= b,
        b <= a ==> b <= r <= a,
{
    let diff = b - a;
    proof {
        if diff >= 0 {
            assert(0 <= diff * w <= diff * 65536) by (nonlinear_arith)
                requires
                    0 <= diff,
                    0 <= w <= 65536,
            ;
            lemma_div_pos_is_pos(diff * w, 65536);
            lemma_div_is_ordered(diff * w, diff * 65536, 65536);
            lemma_div_by_multiple(diff as int, 65536);
        } else {
            assert(diff * 65536 <= diff * w <= 0) by (nonlinear_arith)
                requires
                    diff < 0,
                    0 <= w <= 65536,
            ;
            lemma_div_is_ordered(diff * 65536, diff * w, 65536);
            lemma_div_is_ordered(diff * w, 0, 65536);
            assert(diff * 65536 == diff * 65536 + 0);
            lemma_fundamental_div_mod_converse(diff * 65536, 65536, diff as int, 0);
            lemma_fundamental_div_mod_converse(0, 65536, 0, 0);
        }
    }
    let q = div_floor(diff * w, SCALE);
    a + q
}

impl GradientNoiseField {
    /// Fetches the gradient hashed to lattice point `(ix, iy)`; wraparound is
    /// bitwise, so the tables tile every 256 lattice steps.
    pub fn gradient_at(&self, ix: i64, iy: i64) -> (g: Vec2)
        requires
            self.wf(),
        ensures
            g == spec_gradient_at(self.grads@, self.perm@, ix, iy),
            unit_ish(g.x as int, g.y as int),
            -SCALE <= g.x <= SCALE,
            -SCALE <= g.y <= SCALE,
    {
        proof {
            lemma_mask255(ix);
            lemma_mask255(iy);
        }
        let a = (ix & 255) as usize;
        let b = (iy & 255) as usize;
        let pa = self.perm[a];
        let pb = self.perm[b];
        let idx: u16 = pa as u16 + pb as u16;
        let m = (idx & 255) as usize;
        proof {
            assert(idx & 255 == idx % 256) by (bit_vector);
            lemma_mod_division_less_than_divisor(idx as int, 256);
            lemma_div_pos_is_pos(idx as int, 256);
            assert(m as int == (pa as int + pb as int) % 256);
        }
        self.grads[m]
    }

    /// Samples the noise field at fixed-point point `(x, y)`. The value is a
    /// function of the tables and the point alone, and lies within twice the
    /// unit scale.
    pub fn sample(&self, x: i64, y: i64) -> (v: i64)
        requires
            self.wf(),
            -XY_MAX <= x <= XY_MAX,
            -XY_MAX <= y <= XY_MAX,
        ensures
            v == spec_sample(self.grads@, self.perm@, x, y),
            -2 * SCALE <= v <= 2 * SCALE,
    {
        let x0 = div_floor(x, SCALE);
        let y0 = div_floor(y, SCALE);
        proof {
            lemma_div_is_ordered(-XY_MAX as int, x as int, 65536);
            lemma_div_is_ordered(x as int, XY_MAX as int, 65536);
            lemma_div_is_ordered(-XY_MAX as int, y as int, 65536);
            lemma_div_is_ordered(y as int, XY_MAX as int, 65536);
            lemma_fundamental_div_mod_converse(XY_MAX as int, 65536, 0x100_0000, 0);
            lemma_fundamental_div_mod_converse(-XY_MAX as int, 65536, -0x100_0000, 0);
            lemma_fundamental_div_mod(x as int, 65536);
            lemma_mod_division_less_than_divisor(x as int, 65536);
            lemma_fundamental_div_mod(y as int, 65536);
            lemma_mod_division_less_than_divisor(y as int, 65536);
        }
        let dx = x - x0 * SCALE;
        let dy = y - y0 * SCALE;
        let g00 = self.gradient_at(x0, y0);
        let g10 = self.gradient_at(x0 + 1, y0);
        let g01 = self.gradient_at(x0, y0 + 1);
        let g11 = self.gradient_at(x0 + 1, y0 + 1);
        let v00 = dot_scaled(g00, dx, dy);
        let v10 = dot_scaled(g10, dx - SCALE, dy);
        let v01 = dot_scaled(g01, dx, dy - SCALE);
        let v11 = dot_scaled(g11, dx - SCALE, dy - SCALE);
        let fw = smooth(dx);
        let gw = smooth(dy);
        let vx0 = lerp(v00, v10, fw);
        let vx1 = lerp(v01, v11, fw);
        lerp(vx0, vx1, gw)
    }
}

/// The interpolation formula of the cell whose lower corner is `(cx, cy)`,
/// taken at offset `(dx, dy)` from that corner. `spec_sample` evaluates this
/// formula for the cell that contains the point.
pub open spec fn spec_cell_sample(
    grads: Seq<Vec2>,
    perm: Seq<u8>,
    cx: i64,
    cy: i64,
    dx: int,
    dy: int,
) -> int {
    let g00 = spec_gradient_at(grads, perm, cx, cy);
    let g10 = spec_gradient_at(grads, perm, (cx + 1) as i64, cy);
    let g01 = spec_gradient_at(grads, perm, cx, (cy + 1) as i64);
    let g11 = spec_gradient_at(grads, perm, (cx + 1) as i64, (cy + 1) as i64);
    let v00 = spec_dot(g00.x as int, g00.y as int, dx, dy);
    let v10 = spec_dot(g10.x as int, g10.y as int, dx - 65536, dy);
    let v01 = spec_dot(g01.x as int, g01.y as int, dx, dy - 65536);
    let v11 = spec_dot(g11.x as int, g11.y as int, dx - 65536, dy - 65536);
    let fw = spec_smooth(dx);
    let gw = spec_smooth(dy);
    spec_lerp(spec_lerp(v00, v10, fw), spec_lerp(v01, v11, fw), gw)
}

/// A sample is its containing cell's formula at the in-cell offset.
pub proof fn lemma_sample_in_cell(grads: Seq<Vec2>, perm: Seq<u8>, x: i64, y: i64)
    requires
        -XY_MAX <= x <= XY_MAX,
        -XY_MAX <= y <= XY_MAX,
    ensures
        spec_sample(grads, perm, x, y) == spec_cell_sample(
            grads,
            perm,
            (x as int / 65536) as i64,
            (y as int / 65536) as i64,
            x - 65536 * (x as int / 65536),
            y - 65536 * (y as int / 65536),
        ),
{
    lemma_div_is_ordered(-XY_MAX as int, x as int, 65536);
    lemma_div_is_ordered(x as int, XY_MAX as int, 65536);
    lemma_div_is_ordered(-XY_MAX as int, y as int, 65536);
    lemma_div_is_ordered(y as int, XY_MAX as int, 65536);
    lemma_fundamental_div_mod_converse(XY_MAX as int, 65536, 0x100_0000, 0);
    lemma_fundamental_div_mod_converse(-XY_MAX as int, 65536, -0x100_0000, 0);
}

proof fn lemma_smooth_edges()
    ensures
        spec_smooth(0) == 0,
        spec_smooth(65536) == 65536,
{
    lemma_fundamental_div_mod_converse(0, 65536int * 65536, 0, 0);
    lemma_fundamental_div_mod_converse(65536int * 65536 * 65536, 65536int * 65536, 65536, 0);
    assert(0int * 0 * (3 * 65536 - 2 * 0) == 0) by (nonlinear_arith);
    assert(65536int * 65536 * (3 * 65536 - 2 * 65536) == 65536int * 65536 * 65536)
        by (nonlinear_arith);
    assert(spec_smooth(0) == 0int / (65536int * 65536));
    assert(spec_smooth(65536) == (65536int * 65536 * 65536) / (65536int * 65536));
}

proof fn lemma_lerp_edges(a: int, b: int)
    ensures
        spec_lerp(a, b, 0) == a,
        spec_lerp(a, b, 65536) == b,
{
    lemma_fundamental_div_mod_converse(0, 65536, 0, 0);
    lemma_div_multiples_vanish(b - a, 65536);
    assert((b - a) * 0 == 0 && (b - a) * 65536 == 65536 * (b - a)) by (nonlinear_arith);
}

/// Sampling is continuous across a vertical lattice line: the left cell's
/// formula at its right edge agrees exactly with the right cell's formula at
/// its left edge, for every height within the row of cells.
pub proof fn lemma_continuity_x(
    grads: Seq<Vec2>,
    perm: Seq<u8>,
    x0: i64,
    cy: i64,
    dy: int,
)
    requires
        -0x1000_0000 <= x0 <= 0x1000_0000,
    ensures
        spec_cell_sample(grads, perm, (x0 - 1) as i64, cy, 65536, dy) == spec_cell_sample(
            grads,
            perm,
            x0,
            cy,
            0,
            dy,
        ),
{
    lemma_smooth_edges();
    let g00 = spec_gradient_at(grads, perm, x0, cy);
    let g01 = spec_gradient_at(grads, perm, x0, (cy + 1) as i64);
    let v0 = spec_dot(g00.x as int, g00.y as int, 0, dy);
    let v1 = spec_dot(g01.x as int, g01.y as int, 0, dy - 65536);
    let ga = spec_gradient_at(grads, perm, (x0 - 1) as i64, cy);
    let gb = spec_gradient_at(grads, perm, (x0 - 1) as i64, (cy + 1) as i64);
    lemma_lerp_edges(spec_dot(ga.x as int, ga.y as int, 65536, dy), v0);
    lemma_lerp_edges(spec_dot(gb.x as int, gb.y as int, 65536, dy - 65536), v1);
    lemma_lerp_edges(v0, spec_dot(
        spec_gradient_at(grads, perm, (x0 + 1) as i64, cy).x as int,
        spec_gradient_at(grads, perm, (x0 + 1) as i64, cy).y as int,
        -65536,
        dy,
    ));
    lemma_lerp_edges(v1, spec_dot(
        spec_gradient_at(grads, perm, (x0 + 1) as i64, (cy + 1) as i64).x as int,
        spec_gradient_at(grads, perm, (x0 + 1) as i64, (cy + 1) as i64).y as int,
        -65536,
        dy - 65536,
    ));
}

/// Sampling is continuous across a horizontal lattice line in the same exact
/// sense, the smoothstep anchoring at the corner-0 origin notwithstanding.
pub proof fn lemma_continuity_y(
    grads: Seq<Vec2>,
    perm: Seq<u8>,
    cx: i64,
    y0: i64,
    dx: int,
)
    requires
        -0x1000_0000 <= y0 <= 0x1000_0000,
    ensures
        spec_cell_sample(grads, perm, cx, (y0 - 1) as i64, dx, 65536) == spec_cell_sample(
            grads,
            perm,
            cx,
            y0,
            dx,
            0,
        ),
{
    lemma_smooth_edges();
    let g00 = spec_gradient_at(grads, perm, cx, y0);
    let g10 = spec_gradient_at(grads, perm, (cx + 1) as i64, y0);
    let v0 = spec_dot(g00.x as int, g00.y as int, dx, 0);
    let v1 = spec_dot(g10.x as int, g10.y as int, dx - 65536, 0);
    let fw = spec_smooth(dx);
    let vx0 = spec_lerp(v0, v1, fw);
    let ga = spec_gradient_at(grads, perm, cx, (y0 - 1) as i64);
    let gb = spec_gradient_at(grads, perm, (cx + 1) as i64, (y0 - 1) as i64);
    let va = spec_dot(ga.x as int, ga.y as int, dx, 65536);
    let vb = spec_dot(gb.x as int, gb.y as int, dx - 65536, 65536);
    lemma_lerp_edges(spec_lerp(va, vb, fw), vx0);
    let gc = spec_gradient_at(grads, perm, cx, (y0 + 1) as i64);
    let gd = spec_gradient_at(grads, perm, (cx + 1) as i64, (y0 + 1) as i64);
    let vc = spec_dot(gc.x as int, gc.y as int, dx, -65536);
    let vd = spec_dot(gd.x as int, gd.y as int, dx - 65536, -65536);
    lemma_lerp_edges(vx0, spec_lerp(vc, vd, fw));
}

/// Two noise fields built from the same seed hold the same tables, so they
/// sample to the same value at every point: construction is deterministic in
/// the seed.
pub proof fn lemma_deterministic_sample(
    f1: &GradientNoiseField,
    f2: &GradientNoiseField,
    seed: u64,
    x: i64,
    y: i64,
)
    requires
        f1.grads@ == grads_built(seed, 256).0,
        f1.perm@ == shuffle_rec(identity_table(), grads_built(seed, 256).1, 255).0,
        f2.grads@ == grads_built(seed, 256).0,
        f2.perm@ == shuffle_rec(identity_table(), grads_built(seed, 256).1, 255).0,
    ensures
        spec_sample(f1.grads@, f1.perm@, x, y) == spec_sample(f2.grads@, f2.perm@, x, y),
{
}

} // verus!
