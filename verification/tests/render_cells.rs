use termart::grid::plan_grid;
use termart::pipeline::{render_image, RenderError};
use termart::raster::RgbImage;
use termart::render::render_cells;

#[test]
fn cells_pair_top_and_bottom_samples() {
    // 2x2 image, 2x1 grid: each cell stacks the pixel above (background)
    // over the pixel below (foreground)
    let data = vec![
        1, 2, 3, /* (0,0) */
        4, 5, 6, /* (1,0) */
        7, 8, 9, /* (0,1) */
        10, 11, 12, /* (1,1) */
    ];
    let img = RgbImage::from_raw(2, 2, data).unwrap();
    let plan = plan_grid(2, 1, 2, 2);
    assert_eq!((plan.columns, plan.rows), (2, 1));
    let rows = render_cells(&img, &plan);
    assert_eq!(rows.len(), 1);
    assert_eq!(rows[0].len(), 2);
    assert_eq!((rows[0][0].bg.r, rows[0][0].bg.g, rows[0][0].bg.b), (1, 2, 3));
    assert_eq!((rows[0][0].fg.r, rows[0][0].fg.g, rows[0][0].fg.b), (7, 8, 9));
    assert_eq!((rows[0][1].bg.r, rows[0][1].bg.g, rows[0][1].bg.b), (4, 5, 6));
    assert_eq!((rows[0][1].fg.r, rows[0][1].fg.g, rows[0][1].fg.b), (10, 11, 12));
}

#[test]
fn solid_red_image_renders_red_cells() {
    // a 4x2 solid-red image on a terminal with 2 usable columns and 1 usable
    // row: the plan keeps 2 columns, and every emitted cell is pure red in
    // both halves
    let mut data = Vec::new();
    for _ in 0..8 {
        data.extend_from_slice(&[255, 0, 0]);
    }
    let img = RgbImage::from_raw(4, 2, data).unwrap();
    let rendering = render_image(&img, 2, 1, 10).unwrap_or_else(|_| panic!("pipeline failed"));
    assert_eq!((rendering.plan.columns, rendering.plan.rows), (2, 1));
    assert_eq!(rendering.cells.len(), 1);
    assert_eq!(rendering.cells[0].len(), 2);
    for cell in rendering.cells[0].iter() {
        assert_eq!((cell.fg.r, cell.fg.g, cell.fg.b), (255, 0, 0));
        assert_eq!((cell.bg.r, cell.bg.g, cell.bg.b), (255, 0, 0));
    }
}

#[test]
fn oversized_grid_reports_cluster_overflow() {
    // a 50000x50000 usable terminal fits a 1x2 image exactly, demanding
    // 2 * 50000 * 50000 clusters, more than a 32-bit count can hold
    let img = RgbImage::from_raw(1, 2, vec![1, 2, 3, 4, 5, 6]).unwrap();
    let r = render_image(&img, 50000, 50000, 10);
    assert!(matches!(r, Err(RenderError::ClusterCountOverflow)));
}

#[test]
fn one_pixel_image_fails_cleanly() {
    // the 2x1 cell grid asks for 4 clusters, which a single pixel cannot
    // provide: the pipeline reports the failure instead of crashing
    let img = RgbImage::from_raw(1, 1, vec![50, 60, 70]).unwrap();
    assert!(render_image(&img, 2, 1, 10).is_err());
}
