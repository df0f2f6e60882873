//! The grid driver: walks the cells of a `rows x cols` grid, maps each cell
//! linearly into a domain rectangle (index `0` lands exactly on the minimum),
//! feeds the point to the escape-time evaluator or the noise field, and
//! quantizes the intensity into a glyph row.
use crate::escape::{iter_result, Cx, Ifs, COORD_MAX};
use crate::fixed::{div_floor, SCALE};
use crate::noise::{spec_sample, GradientNoiseField, Vec2, XY_MAX};
use crate::quantize::{quantize, quantize_idx};
use vstd::arithmetic::div_mod::{
    lemma_div_by_multiple, lemma_div_is_ordered, lemma_div_pos_is_pos,
    lemma_fundamental_div_mod_converse,
};
use vstd::prelude::*;

verus! {

/// Largest grid dimension the driver accepts along either axis.
pub const DIM_MAX: usize = 65536;

/// The domain coordinate of index `idx` of `dim` cells along one axis:
/// `min + (max - min) * idx / dim`.
pub open spec fn spec_axis(min: int, max: int, idx: int, dim: int) -> int {
    min + (max - min) * idx / dim
}

/// Maps a cell index to its axis coordinate; the result stays inside the
/// interval spanned by `min` and `max`.
pub fn map_axis(min: i64, max: i64, idx: usize, dim: usize) -> (r: i64)
    requires
        1 <= dim <= DIM_MAX,
        idx < dim,
        -XY_MAX <= min <= XY_MAX,
        -XY_MAX <= max <= XY_MAX,
    ensures
        r == spec_axis(min as int, max as int, idx as int, dim as int),
        min <= max ==> min <= r <= max,
        max <= min ==> max <= r <= min,
{
    let diff = max - min;
    proof {
        assert(-0x400_0000_0000_0000 <= diff * idx <= 0x400_0000_0000_0000) by (nonlinear_arith)
            requires
                -0x200_0000_0000 <= diff <= 0x200_0000_0000,
                0 <= idx <= 65536,
        ;
        if diff >= 0 {
            assert(0 <= diff * idx <= diff * dim) by (nonlinear_arith)
                requires
                    0 <= diff,
                    0 <= idx <= dim,
            ;
            lemma_div_pos_is_pos(diff * idx, dim as int);
            lemma_div_is_ordered(diff * idx, diff * (dim as int), dim as int);
            lemma_div_by_multiple(diff as int, dim as int);
            assert(diff * dim == (dim as int) * diff == diff * (dim as int)) by (nonlinear_arith);
        } else {
            assert(diff * dim <= diff * idx <= 0) by (nonlinear_arith)
                requires
                    diff < 0,
                    0 <= idx <= dim,
            ;
            lemma_div_is_ordered(diff * (dim as int), diff * idx, dim as int);
            lemma_div_is_ordered(diff * idx, 0, dim as int);
            assert(diff * (dim as int) == diff * (dim as int) + 0);
            lemma_fundamental_div_mod_converse(diff * (dim as int), dim as int, diff as int, 0);
            lemma_fundamental_div_mod_converse(0, dim as int, 0, 0);
        }
    }
    let q = div_floor(diff * (idx as i64), dim as i64);
    min + q
}

/// The glyph of cell `(row, col)` of a fractal pass: the cell's domain point
/// is evaluated and the inverted escape count quantized against the ramp.
pub open spec fn fractal_cell(
    max_iter: nat,
    min: Cx,
    max: Cx,
    cols: int,
    rows: int,
    row: int,
    col: int,
    ramp: Seq<char>,
) -> char {
    let cr = spec_axis(min.re as int, max.re as int, col, cols);
    let ci = spec_axis(min.im as int, max.im as int, row, rows);
    let m = iter_result(Cx { re: cr as i64, im: ci as i64 }, max_iter);
    ramp[quantize_idx(m as int, ramp.len() as int)]
}

/// The glyph of cell `(row, col)` of a noise pass: the sampled value is
/// clamped to `[-1, 1]`, remapped to an 8-bit intensity, and quantized.
pub open spec fn noise_cell(
    grads: Seq<Vec2>,
    perm: Seq<u8>,
    min: Vec2,
    max: Vec2,
    cols: int,
    rows: int,
    row: int,
    col: int,
    ramp: Seq<char>,
) -> char {
    let x = spec_axis(min.x as int, max.x as int, col, cols);
    let y = spec_axis(min.y as int, max.y as int, row, rows);
    let v = spec_sample(grads, perm, x as i64, y as i64);
    let u = if v < -65536 {
        -65536int
    } else if v > 65536 {
        65536int
    } else {
        v
    };
    let m = (u + 65536) * 255 / (2int * 65536);
    ramp[quantize_idx(m, ramp.len() as int)]
}

/// The grid driver: holds the grid dimensions of a render pass.
pub struct GridDriver {
    pub cols: usize,
    pub rows: usize,
}

impl GridDriver {
    /// Builds a driver for a `rows x cols` grid.
    pub fn new(cols: usize, rows: usize) -> (d: Self)
        ensures
            d.cols == cols,
            d.rows == rows,
    {
        GridDriver { cols, rows }
    }

    /// Renders the escape-time field over the rectangle spanned by `min` and
    /// `max`: `rows` rows of `cols` glyphs, each cell's glyph pinned by
    /// `fractal_cell`. Zero rows or columns yield an empty pass.
    pub fn render_fractal(&self, ifs: &Ifs, min: Cx, max: Cx, ramp: &Vec<char>) -> (out: Vec<
        Vec<char>,
    >)
        requires
            self.cols <= DIM_MAX,
            self.rows <= DIM_MAX,
            ifs.max_iter <= 255,
            ramp.len() >= 1,
            -COORD_MAX <= min.re <= COORD_MAX,
            -COORD_MAX <= min.im <= COORD_MAX,
            -COORD_MAX <= max.re <= COORD_MAX,
            -COORD_MAX <= max.im <= COORD_MAX,
        ensures
            self.cols == 0 || self.rows == 0 ==> out@.len() == 0,
            self.cols > 0 ==> out@.len() == self.rows,
            forall|r: int| 0 <= r < out@.len() ==> (#[trigger] out@[r])@.len() == self.cols,
            forall|r: int, c: int|
                0 <= r < out@.len() && 0 <= c < self.cols ==> #[trigger] out@[r]@[c]
                    == fractal_cell(
                    ifs.max_iter as nat,
                    min,
                    max,
                    self.cols as int,
                    self.rows as int,
                    r,
                    c,
                    ramp@,
                ),
    {
        if self.cols == 0 {
            return Vec::new();
        }
        let mut out: Vec<Vec<char>> = Vec::new();
        let mut row: usize = 0;
        while row < self.rows
            invariant
                row <= self.rows,
                out@.len() == row,
                self.cols <= DIM_MAX,
                self.rows <= DIM_MAX,
                ifs.max_iter <= 255,
                ramp.len() >= 1,
                -COORD_MAX <= min.re <= COORD_MAX,
                -COORD_MAX <= min.im <= COORD_MAX,
                -COORD_MAX <= max.re <= COORD_MAX,
                -COORD_MAX <= max.im <= COORD_MAX,
                forall|r: int| 0 <= r < row ==> (#[trigger] out@[r])@.len() == self.cols,
                forall|r: int, c: int|
                    0 <= r < row && 0 <= c < self.cols ==> #[trigger] out@[r]@[c]
                        == fractal_cell(
                        ifs.max_iter as nat,
                        min,
                        max,
                        self.cols as int,
                        self.rows as int,
                        r,
                        c,
                        ramp@,
                    ),
            decreases self.rows - row,
        {
            let y = map_axis(min.im, max.im, row, self.rows);
            let mut line: Vec<char> = Vec::new();
            let mut col: usize = 0;
            while col < self.cols
                invariant
                    col <= self.cols,
                    line@.len() == col,
                    row < self.rows,
                    self.cols <= DIM_MAX,
                    self.rows <= DIM_MAX,
                    ifs.max_iter <= 255,
                    ramp.len() >= 1,
                    -COORD_MAX <= min.re <= COORD_MAX,
                    -COORD_MAX <= min.im <= COORD_MAX,
                    -COORD_MAX <= max.re <= COORD_MAX,
                    -COORD_MAX <= max.im <= COORD_MAX,
                    -COORD_MAX <= y <= COORD_MAX,
                    y == spec_axis(min.im as int, max.im as int, row as int, self.rows as int),
                    forall|c: int|
                        0 <= c < col ==> #[trigger] line@[c] == fractal_cell(
                            ifs.max_iter as nat,
                            min,
                            max,
                            self.cols as int,
                            self.rows as int,
                            row as int,
                            c,
                            ramp@,
                        ),
                decreases self.cols - col,
            {
                let x = map_axis(min.re, max.re, col, self.cols);
                let m = ifs.iter(Cx { re: x, im: y });
                let g = quantize(m as u8, ramp);
                line.push(g);
                col = col + 1;
            }
            out.push(line);
            row = row + 1;
        }
        out
    }

    /// Renders the noise field over the rectangle spanned by `min` and
    /// `max`: `rows` rows of `cols` glyphs, each cell's glyph pinned by
    /// `noise_cell`. Zero rows or columns yield an empty pass.
    pub fn render_noise(
        &self,
        field: &GradientNoiseField,
        min: Vec2,
        max: Vec2,
        ramp: &Vec<char>,
    ) -> (out: Vec<Vec<char>>)
        requires
            self.cols <= DIM_MAX,
            self.rows <= DIM_MAX,
            field.wf(),
            ramp.len() >= 1,
            -XY_MAX <= min.x <= XY_MAX,
            -XY_MAX <= min.y <= XY_MAX,
            -XY_MAX <= max.x <= XY_MAX,
            -XY_MAX <= max.y <= XY_MAX,
        ensures
            self.cols == 0 || self.rows == 0 ==> out@.len() == 0,
            self.cols > 0 ==> out@.len() == self.rows,
            forall|r: int| 0 <= r < out@.len() ==> (#[trigger] out@[r])@.len() == self.cols,
            forall|r: int, c: int|
                0 <= r < out@.len() && 0 <= c < self.cols ==> #[trigger] out@[r]@[c] == noise_cell(
                    field.grads@,
                    field.perm@,
                    min,
                    max,
                    self.cols as int,
                    self.rows as int,
                    r,
                    c,
                    ramp@,
                ),
    {
        if self.cols == 0 {
            return Vec::new();
        }
        let mut out: Vec<Vec<char>> = Vec::new();
        let mut row: usize = 0;
        while row < self.rows
            invariant
                row <= self.rows,
                out@.len() == row,
                self.cols <= DIM_MAX,
                self.rows <= DIM_MAX,
                field.wf(),
                ramp.len() >= 1,
                -XY_MAX <= min.x <= XY_MAX,
                -XY_MAX <= min.y <= XY_MAX,
                -XY_MAX <= max.x <= XY_MAX,
                -XY_MAX <= max.y <= XY_MAX,
                forall|r: int| 0 <= r < row ==> (#[trigger] out@[r])@.len() == self.cols,
                forall|r: int, c: int|
                    0 <= r < row && 0 <= c < self.cols ==> #[trigger] out@[r]@[c] == noise_cell(
                        field.grads@,
                        field.perm@,
                        min,
                        max,
                        self.cols as int,
                        self.rows as int,
                        r,
                        c,
                        ramp@,
                    ),
            decreases self.rows - row,
        {
            let y = map_axis(min.y, max.y, row, self.rows);
            let mut line: Vec<char> = Vec::new();
            let mut col: usize = 0;
            while col < self.cols
                invariant
                    col <= self.cols,
                    line@.len() == col,
                    row < self.rows,
                    self.cols <= DIM_MAX,
                    self.rows <= DIM_MAX,
                    field.wf(),
                    ramp.len() >= 1,
                    -XY_MAX <= min.x <= XY_MAX,
                    -XY_MAX <= min.y <= XY_MAX,
                    -XY_MAX <= max.x <= XY_MAX,
                    -XY_MAX <= max.y <= XY_MAX,
                    -XY_MAX <= y <= XY_MAX,
                    y == spec_axis(min.y as int, max.y as int, row as int, self.rows as int),
                    forall|c: int|
                        0 <= c < col ==> #[trigger] line@[c] == noise_cell(
                            field.grads@,
                            field.perm@,
                            min,
                            max,
                            self.cols as int,
                            self.rows as int,
                            row as int,
                            c,
                            ramp@,
                        ),
                decreases self.cols - col,
            {
                let x = map_axis(min.x, max.x, col, self.cols);
                let v = field.sample(x, y);
                let u = if v < -SCALE {
                    -SCALE
                } else if v > SCALE {
                    SCALE
                } else {
                    v
                };
                let num = (u + SCALE) * 255;
                proof {
                    lemma_div_pos_is_pos(num as int, 2int * 65536);
                    lemma_div_is_ordered(num as int, 33423360, 2int * 65536);
                    lemma_fundamental_div_mod_converse(33423360, 2int * 65536, 255, 0);
                }
                let m64 = div_floor(num, 2 * SCALE);
                let g = quantize(m64 as u8, ramp);
                line.push(g);
                col = col + 1;
            }
            out.push(line);
            row = row + 1;
        }
        out
    }
}

} // verus!
