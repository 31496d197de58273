//! Terminal grid planning: the largest cell grid that fits within the
//! terminal while preserving the image's aspect ratio, where each terminal
//! cell renders two vertically stacked color samples.

use vstd::prelude::*;
use vstd::arithmetic::div_mod::{lemma_fundamental_div_mod, lemma_mod_bound};

verus! {

/// The aspect-preserving column fit: when the terminal is relatively taller
/// than the image, the column count shrinks to `2 * rows * width / height`;
/// otherwise it is kept.
pub open spec fn fit_columns(columns: int, rows: int, width: int, height: int) -> int {
    if 2 * rows * width < columns * height {
        (2 * rows * width) / height
    } else {
        columns
    }
}

/// The aspect-preserving row fit: when the terminal is relatively wider than
/// the image, the row count shrinks to `columns * height / width / 2`;
/// otherwise it is kept.
pub open spec fn fit_rows(columns: int, rows: int, width: int, height: int) -> int {
    if 2 * rows * width < columns * height {
        rows
    } else {
        columns * height / width / 2
    }
}

/// A truncated fit of zero cells is floored to one so that a plan always
/// holds at least one cell on each axis.
pub open spec fn floor_to_one(x: int) -> int {
    if x < 1 {
        1
    } else {
        x
    }
}

/// The cluster count that a plan for these inputs will request: two samples
/// per cell over the fitted grid.
pub open spec fn planned_k(columns: int, rows: int, width: int, height: int) -> int {
    2 * floor_to_one(fit_columns(columns, rows, width, height)) * floor_to_one(
        fit_rows(columns, rows, width, height),
    )
}

/// The terminal grid layout: the fitted cell grid, the source dimensions,
/// and the per-axis ratios locating the pixel neighborhood each rendered
/// sample notionally represents.
pub struct GridPlan {
    pub columns: u32,
    pub rows: u32,
    pub unit_width: u32,
    pub unit_height: u32,
    pub width: u32,
    pub height: u32,
}

impl GridPlan {
    /// At least one cell on each axis, axes bounded by the terminal-size
    /// domain, and sampling ratios derived from the grid by truncating
    /// division.
    pub open spec fn wf(&self) -> bool {
        &&& 1 <= self.columns <= 0xffff
        &&& 1 <= self.rows <= 0xffff
        &&& self.width >= 1
        &&& self.height >= 1
        &&& self.unit_width == self.width as int / self.columns as int
        &&& self.unit_height == self.height as int / (2 * self.rows as int)
    }

    /// The cluster count the quantizer is asked for: one cluster per rendered
    /// sample, two samples per cell.
    pub open spec fn spec_k(&self) -> int {
        2 * self.columns as int * self.rows as int
    }

    /// Computes the quantizer's target cluster count.
    pub fn k(&self) -> (k: u64)
        requires
            self.wf(),
        ensures
            k == self.spec_k(),
    {
        proof {
            assert(2 * self.columns as int * self.rows as int <= 2 * 0xffff * 0xffff)
                by (nonlinear_arith)
                requires
                    1 <= self.columns as int <= 0xffff,
                    1 <= self.rows as int <= 0xffff,
            ;
        }
        2 * self.columns as u64 * self.rows as u64
    }
}

/// Plans the terminal cell grid for an image: compares `rows * 2 * width`
/// against `columns * height` and shrinks the axis that would overflow the
/// image's aspect ratio, truncating; a fit of zero cells is floored to one
/// cell so the plan never divides by zero.
pub fn plan_grid(columns: u16, rows: u16, width: u32, height: u32) -> (plan: GridPlan)
    requires
        columns >= 1,
        rows >= 1,
        width >= 1,
        height >= 1,
    ensures
        plan.wf(),
        plan.width == width,
        plan.height == height,
        plan.columns as int == floor_to_one(
            fit_columns(columns as int, rows as int, width as int, height as int),
        ),
        plan.rows as int == floor_to_one(
            fit_rows(columns as int, rows as int, width as int, height as int),
        ),
{
    let c: u64 = columns as u64;
    let r: u64 = rows as u64;
    let w: u64 = width as u64;
    let h: u64 = height as u64;
    proof {
        assert(2 * r as int * w as int <= 2 * 0xffff * 0xffff_ffff) by (nonlinear_arith)
            requires
                1 <= r as int <= 0xffff,
                1 <= w as int <= 0xffff_ffff,
        ;
        assert(c as int * h as int <= 0xffff * 0xffff_ffff) by (nonlinear_arith)
            requires
                1 <= c as int <= 0xffff,
                1 <= h as int <= 0xffff_ffff,
        ;
    }
    let vertical: u64 = 2 * r * w;
    let horizontal: u64 = c * h;
    let (fc, fr): (u64, u64) = if vertical < horizontal {
        let q: u64 = vertical / h;
        proof {
            lemma_fundamental_div_mod(vertical as int, h as int);
            lemma_mod_bound(vertical as int, h as int);
            assert((q as int) < (c as int)) by (nonlinear_arith)
                requires
                    vertical as int == h as int * (q as int) + (vertical as int % h as int),
                    0 <= vertical as int % h as int,
                    (vertical as int) < (c as int) * (h as int),
                    h as int >= 1,
                    q as int >= 0,
            ;
        }
        (q, r)
    } else {
        let q: u64 = horizontal / w / 2;
        proof {
            lemma_fundamental_div_mod(horizontal as int, w as int);
            lemma_mod_bound(horizontal as int, w as int);
            let u = horizontal as int / w as int;
            assert(u <= 2 * r as int) by (nonlinear_arith)
                requires
                    horizontal as int == w as int * u + (horizontal as int % w as int),
                    0 <= horizontal as int % w as int,
                    horizontal as int <= 2 * (r as int) * (w as int),
                    w as int >= 1,
                    u >= 0,
            ;
        }
        (c, q)
    };
    let fc1: u64 = if fc < 1 {
        1
    } else {
        fc
    };
    let fr1: u64 = if fr < 1 {
        1
    } else {
        fr
    };
    let uw: u64 = w / fc1;
    let uh: u64 = h / (2 * fr1);
    proof {
        lemma_div_le_num(w as int, fc1 as int);
        lemma_div_le_num(h as int, 2 * fr1 as int);
    }
    GridPlan {
        columns: fc1 as u32,
        rows: fr1 as u32,
        unit_width: uw as u32,
        unit_height: uh as u32,
        width,
        height,
    }
}

/// A truncating quotient of non-negative values never exceeds the numerator.
proof fn lemma_div_le_num(x: int, d: int)
    by (nonlinear_arith)
    requires
        x >= 0,
        d >= 1,
    ensures
        0 <= x / d <= x,
{
}

/// Aspect preservation of the grid fit: whenever the truncated fit keeps at
/// least one cell on both axes, the fitted grid never exceeds the terminal
/// bounds on either axis, and `columns' / (2 * rows')` matches the image's
/// aspect ratio `width / height` to within one truncation unit:
/// `fc * height < 2 * fr * width + 2 * width` and
/// `2 * fr * width < fc * height + height`.
pub proof fn lemma_grid_aspect(columns: int, rows: int, width: int, height: int)
    requires
        columns >= 1,
        rows >= 1,
        width >= 1,
        height >= 1,
        fit_columns(columns, rows, width, height) >= 1,
        fit_rows(columns, rows, width, height) >= 1,
    ensures
        fit_columns(columns, rows, width, height) <= columns,
        fit_rows(columns, rows, width, height) <= rows,
        fit_columns(columns, rows, width, height) * height < 2 * fit_rows(
            columns,
            rows,
            width,
            height,
        ) * width + 2 * width,
        2 * fit_rows(columns, rows, width, height) * width < fit_columns(
            columns,
            rows,
            width,
            height,
        ) * height + height,
{
    let v = 2 * rows * width;
    let z = columns * height;
    if v < z {
        let fc = v / height;
        lemma_fundamental_div_mod(v, height);
        lemma_mod_bound(v, height);
        assert(fc <= columns && fc * height <= v && v < fc * height + height)
            by (nonlinear_arith)
            requires
                v == height * fc + (v % height),
                0 <= v % height < height,
                v < columns * height,
                height >= 1,
                fc >= 0,
        ;
    } else {
        let u = z / width;
        let fr = u / 2;
        lemma_fundamental_div_mod(z, width);
        lemma_mod_bound(z, width);
        lemma_fundamental_div_mod(u, 2);
        lemma_mod_bound(u, 2);
        assert(fr <= rows && 2 * fr * width <= z && z < 2 * fr * width + 2 * width)
            by (nonlinear_arith)
            requires
                z == width * u + (z % width),
                0 <= z % width < width,
                u == 2 * fr + (u % 2),
                0 <= u % 2 < 2,
                z <= 2 * rows * width,
                width >= 1,
                u >= 0,
                fr >= 0,
        ;
    }
}

} // verus!
