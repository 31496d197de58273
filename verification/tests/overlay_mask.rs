use termart::overlay::edge_overlay_mask;
use termart::raster::GrayImage;

#[test]
fn mask_marks_edges_opaque_black() {
    let edges = GrayImage::from_raw(2, 2, vec![255, 0, 7, 255]).unwrap();
    let mask = edge_overlay_mask(&edges);
    assert_eq!((mask.width, mask.height), (2, 2));
    assert_eq!(
        mask.data,
        vec![0, 0, 0, 255, 0, 0, 0, 0, 0, 0, 0, 0, 0, 0, 0, 255]
    );
}

#[test]
fn mask_of_edgeless_map_is_fully_transparent() {
    let edges = GrayImage::from_raw(3, 1, vec![0, 128, 254]).unwrap();
    let mask = edge_overlay_mask(&edges);
    assert!(mask.data.iter().all(|&b| b == 0));
    assert_eq!(mask.data.len(), 12);
}
