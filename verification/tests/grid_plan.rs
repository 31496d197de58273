use termart::grid::plan_grid;

#[test]
fn wide_image_clamps_rows() {
    // a 4x2 image on a 2x1 usable terminal: columns stay, rows truncate to 0
    // and are floored to one cell
    let plan = plan_grid(2, 1, 4, 2);
    assert_eq!((plan.columns, plan.rows), (2, 1));
    assert_eq!((plan.unit_width, plan.unit_height), (2, 1));
}

#[test]
fn tall_terminal_clamps_columns() {
    let plan = plan_grid(80, 24, 500, 1000);
    // 2*24*500 = 24000 < 80*1000, so columns shrink to 24000/1000
    assert_eq!((plan.columns, plan.rows), (24, 24));
    // exact aspect match: columns * height == 2 * rows * width
    assert_eq!(plan.columns * 1000, 2 * plan.rows * 500);
}

#[test]
fn wide_terminal_clamps_rows_exactly() {
    let plan = plan_grid(80, 24, 1000, 500);
    assert_eq!((plan.columns, plan.rows), (80, 20));
    assert_eq!(plan.columns * 500, 2 * plan.rows * 1000);
}

#[test]
fn fitted_grid_never_exceeds_terminal() {
    for &(c, r, w, h) in &[(13u16, 7u16, 640u32, 480u32), (200, 50, 31, 97), (3, 90, 1024, 3)] {
        let plan = plan_grid(c, r, w, h);
        assert!(plan.columns <= c as u32 || plan.columns == 1);
        assert!(plan.rows <= r as u32 || plan.rows == 1);
        assert!(plan.columns >= 1 && plan.rows >= 1);
    }
}

#[test]
fn one_pixel_image_yields_a_grid() {
    // a 1x1 image must not divide by zero and must keep at least one cell on
    // each axis
    let plan = plan_grid(2, 1, 1, 1);
    assert!(plan.columns >= 1 && plan.rows >= 1);
    assert_eq!((plan.columns, plan.rows), (2, 1));
}

#[test]
fn zero_row_fit_is_floored_to_one() {
    // a 100x1 strip on a 1x1 terminal would truncate to zero rows
    let plan = plan_grid(1, 1, 100, 1);
    assert_eq!((plan.columns, plan.rows), (1, 1));
}
