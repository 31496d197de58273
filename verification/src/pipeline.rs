//! The full pipeline from a decoded RGB image to rendered terminal cells:
//! plan the grid for the terminal, quantize the image into one cluster per
//! rendered sample, and sample the quantized image at cell centers.

use vstd::prelude::*;
use crate::grid::{fit_columns, fit_rows, floor_to_one, plan_grid, planned_k, GridPlan};
use crate::quantize::{mean_image_seq, quantize, Quantized, QuantizeError};
use crate::raster::RgbImage;
use crate::render::{render_cells, sample_x, sample_y, Cell};

verus! {

/// A complete rendering: the grid plan, the quantization artifacts, and the
/// cell color pairs, row-major.
pub struct Rendering {
    pub plan: GridPlan,
    pub quantized: Quantized,
    pub cells: Vec<Vec<Cell>>,
}

/// Error of the whole pipeline; any failure aborts the run.
pub enum RenderError {
    /// The planned grid asks for more clusters than the clustering
    /// capability's 32-bit count can hold.
    ClusterCountOverflow,
    /// The clustering capability refused its parameters or failed.
    Quantize(QuantizeError),
}

/// Renders an image for a terminal with the given usable cell dimensions:
/// plans the aspect-preserving grid, quantizes the image into
/// `columns * rows * 2` clusters, replaces every pixel with its cluster's
/// mean color, and pairs the two samples of each cell. `m` is the
/// clustering compactness parameter. Fails whenever the clustering
/// capability refuses, in particular when the cluster count is not strictly
/// below the pixel count.
pub fn render_image(img: &RgbImage, columns: u16, rows: u16, m: u8) -> (r: Result<
    Rendering,
    RenderError,
>)
    requires
        img.wf(),
        img.width >= 1,
        img.height >= 1,
        columns >= 1,
        rows >= 1,
    ensures
        r matches Ok(rd) ==> {
            &&& rd.plan.wf()
            &&& rd.plan.width == img.width
            &&& rd.plan.height == img.height
            &&& rd.plan.columns as int == floor_to_one(
                fit_columns(columns as int, rows as int, img.width as int, img.height as int),
            )
            &&& rd.plan.rows as int == floor_to_one(
                fit_rows(columns as int, rows as int, img.width as int, img.height as int),
            )
            &&& rd.quantized.labels.len() == img.width as int * img.height as int
            &&& forall|i: int|
                0 <= i < rd.quantized.labels.len() ==> rd.quantized.labels[i]
                    < rd.quantized.labels.len()
            &&& rd.quantized.image.wf()
            &&& rd.quantized.image.width == img.width
            &&& rd.quantized.image.height == img.height
            &&& rd.quantized.image.data@ == mean_image_seq(img.data@, rd.quantized.labels@)
            &&& rd.cells.len() == rd.plan.rows
            &&& forall|i: int|
                0 <= i < rd.plan.rows ==> #[trigger] rd.cells[i].len() == rd.plan.columns
            &&& forall|i: int, j: int|
                0 <= i < rd.plan.rows && 0 <= j < rd.plan.columns
                    ==> #[trigger] rd.cells[i][j] == (Cell {
                    bg: rd.quantized.image.pixel_at(
                        sample_x(rd.plan, j),
                        sample_y(rd.plan, 2 * i),
                    ),
                    fg: rd.quantized.image.pixel_at(
                        sample_x(rd.plan, j),
                        sample_y(rd.plan, 2 * i + 1),
                    ),
                })
        },
        (r matches Err(RenderError::ClusterCountOverflow)) <==> planned_k(
            columns as int,
            rows as int,
            img.width as int,
            img.height as int,
        ) > u32::MAX,
        planned_k(columns as int, rows as int, img.width as int, img.height as int)
            >= img.width as int * img.height as int ==> r is Err,
{
    let plan = plan_grid(columns, rows, img.width, img.height);
    let k64: u64 = plan.k();
    proof {
        assert(k64 == planned_k(
            columns as int,
            rows as int,
            img.width as int,
            img.height as int,
        ));
    }
    if k64 > 0xffff_ffffu64 {
        return Err(RenderError::ClusterCountOverflow);
    }
    let k: u32 = k64 as u32;
    match quantize(img, k, m) {
        Ok(qz) => {
            let cells = render_cells(&qz.image, &plan);
            Ok(Rendering { plan, quantized: qz, cells })
        },
        Err(e) => Err(RenderError::Quantize(e)),
    }
}

} // verus!
