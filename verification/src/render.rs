//! Rendering: samples the quantized image at the center of each grid cell's
//! two notional sample neighborhoods and pairs them per terminal cell, the
//! top sample as background and the bottom sample as foreground of a
//! half-height block glyph.

use vstd::prelude::*;
use crate::grid::GridPlan;
use crate::raster::{Rgb, RgbImage};
use vstd::arithmetic::div_mod::{lemma_fundamental_div_mod, lemma_mod_bound};

verus! {

/// One rendered terminal cell: the bottom sample colors the glyph's
/// foreground, the top sample its background.
#[derive(Clone, Copy, PartialEq, Eq, Structural, Debug)]
pub struct Cell {
    pub fg: Rgb,
    pub bg: Rgb,
}

/// The source x pixel coordinate sampled for grid column `col`: the center
/// offset of one notional cell plus the truncated column position.
pub open spec fn sample_x(plan: GridPlan, col: int) -> int {
    plan.unit_width as int / 2 + col * plan.width as int / plan.columns as int
}

/// The source y pixel coordinate sampled for sample row `srow`, of which
/// each cell row holds two.
pub open spec fn sample_y(plan: GridPlan, srow: int) -> int {
    plan.unit_height as int / 2 + srow * plan.height as int / (2 * plan.rows as int)
}

/// The center-offset sample position along one axis stays inside the axis:
/// `(w/c)/2 + i*w/c < w` for any of the `c` grid positions `i`.
proof fn lemma_center_sample_in_range(w: int, c: int, i: int)
    requires
        w >= 1,
        c >= 1,
        0 <= i < c,
    ensures
        0 <= w / c / 2 + i * w / c < w,
{
    let q = w / c;
    let d = i * w / c;
    lemma_fundamental_div_mod(w, c);
    lemma_mod_bound(w, c);
    lemma_fundamental_div_mod(i * w, c);
    lemma_mod_bound(i * w, c);
    lemma_fundamental_div_mod(q, 2);
    lemma_mod_bound(q, 2);
    assert(i * w <= (c - 1) * w) by (nonlinear_arith)
        requires
            0 <= i <= c - 1,
            w >= 0,
    ;
    assert(d >= 0 && q >= 0) by (nonlinear_arith)
        requires
            i * w == c * d + (i * w % c),
            0 <= i * w % c < c,
            w == c * q + (w % c),
            0 <= w % c < c,
            i * w >= 0,
            w >= 0,
            c >= 1,
    ;
    assert(d <= w - q) by (nonlinear_arith)
        requires
            i * w <= (c - 1) * w,
            i * w == c * d + (i * w % c),
            0 <= i * w % c < c,
            w == c * q + (w % c),
            0 <= w % c < c,
            c >= 1,
            d >= 0,
            q >= 0,
    ;
    if q == 0 {
        assert(q / 2 == 0);
        assert(d < w) by (nonlinear_arith)
            requires
                i * w <= (c - 1) * w,
                i * w == c * d + (i * w % c),
                0 <= i * w % c,
                c >= 1,
                w >= 1,
                d >= 0,
        ;
    } else {
        assert(q / 2 <= q - 1) by (nonlinear_arith)
            requires
                q == 2 * (q / 2) + (q % 2),
                0 <= q % 2 < 2,
                q >= 1,
        ;
    }
}

/// Samples the quantized image at every grid sample position, row-major, and
/// pairs the two vertically stacked samples of each terminal cell: the even
/// sample row becomes the cell's background, the odd sample row below it the
/// cell's foreground.
pub fn render_cells(q: &RgbImage, plan: &GridPlan) -> (rows_out: Vec<Vec<Cell>>)
    requires
        q.wf(),
        plan.wf(),
        q.width == plan.width,
        q.height == plan.height,
    ensures
        rows_out.len() == plan.rows,
        forall|i: int| 0 <= i < plan.rows ==> #[trigger] rows_out[i].len() == plan.columns,
        forall|i: int, j: int|
            0 <= i < plan.rows && 0 <= j < plan.columns ==> #[trigger] rows_out[i][j] == (Cell {
                bg: q.pixel_at(sample_x(*plan, j), sample_y(*plan, 2 * i)),
                fg: q.pixel_at(sample_x(*plan, j), sample_y(*plan, 2 * i + 1)),
            }),
{
    let mut rows_out: Vec<Vec<Cell>> = Vec::new();
    let mut i: usize = 0;
    while i < plan.rows as usize
        invariant
            q.wf(),
            plan.wf(),
            q.width == plan.width,
            q.height == plan.height,
            i <= plan.rows,
            rows_out.len() == i,
            forall|a: int| 0 <= a < i ==> #[trigger] rows_out[a].len() == plan.columns,
            forall|a: int, j: int|
                0 <= a < i && 0 <= j < plan.columns ==> #[trigger] rows_out[a][j] == (Cell {
                    bg: q.pixel_at(sample_x(*plan, j), sample_y(*plan, 2 * a)),
                    fg: q.pixel_at(sample_x(*plan, j), sample_y(*plan, 2 * a + 1)),
                }),
        decreases plan.rows - i,
    {
        let mut row: Vec<Cell> = Vec::new();
        let mut j: usize = 0;
        proof {
            lemma_center_sample_in_range(
                plan.height as int,
                2 * plan.rows as int,
                2 * i as int,
            );
            lemma_center_sample_in_range(
                plan.height as int,
                2 * plan.rows as int,
                2 * i as int + 1,
            );
            assert((2 * i as int + 1) * plan.height as int <= 0x20000 * 0xffff_ffff)
                by (nonlinear_arith)
                requires
                    0 <= i as int,
                    (i as int) < 0x10000,
                    plan.height as int <= 0xffff_ffff,
            ;
            assert((2 * i as int) * plan.height as int >= 0) by (nonlinear_arith)
                requires
                    i as int >= 0,
                    plan.height as int >= 0,
            ;
            assert((2 * i as int) * plan.height as int <= (2 * i as int + 1) * plan.height as int)
                by (nonlinear_arith)
                requires
                    i as int >= 0,
                    plan.height as int >= 0,
            ;
        }
        let denom_y: u64 = 2 * plan.rows as u64;
        let y_top: u32 = (plan.unit_height as u64 / 2 + (2 * i as u64) * plan.height as u64
            / denom_y) as u32;
        let y_bot: u32 = (plan.unit_height as u64 / 2 + (2 * i as u64 + 1) * plan.height as u64
            / denom_y) as u32;
        while j < plan.columns as usize
            invariant
                q.wf(),
                plan.wf(),
                q.width == plan.width,
                q.height == plan.height,
                i < plan.rows,
                j <= plan.columns,
                row.len() == j,
                y_top == sample_y(*plan, 2 * i as int),
                y_bot == sample_y(*plan, 2 * i as int + 1),
                y_top < plan.height,
                y_bot < plan.height,
                forall|b: int| 0 <= b < j ==> #[trigger] row[b] == (Cell {
                    bg: q.pixel_at(sample_x(*plan, b), sample_y(*plan, 2 * i as int)),
                    fg: q.pixel_at(sample_x(*plan, b), sample_y(*plan, 2 * i as int + 1)),
                }),
            decreases plan.columns - j,
        {
            proof {
                lemma_center_sample_in_range(plan.width as int, plan.columns as int, j as int);
                assert(0 <= j as int * plan.width as int <= 0xffff * 0xffff_ffff)
                    by (nonlinear_arith)
                    requires
                        0 <= j as int,
                        (j as int) < 0x10000,
                        0 <= plan.width as int <= 0xffff_ffff,
                ;
            }
            let x: u32 = (plan.unit_width as u64 / 2 + (j as u64) * plan.width as u64
                / plan.columns as u64) as u32;
            let bg = q.get_pixel(x, y_top);
            let fg = q.get_pixel(x, y_bot);
            row.push(Cell { fg, bg });
            j = j + 1;
        }
        rows_out.push(row);
        i = i + 1;
    }
    rows_out
}

} // verus!
