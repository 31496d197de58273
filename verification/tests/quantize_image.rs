use termart::quantize::{mean_color_image, quantize};
use termart::raster::RgbImage;

fn solid(width: u32, height: u32, color: [u8; 3]) -> RgbImage {
    let mut data = Vec::new();
    for _ in 0..width * height {
        data.extend_from_slice(&color);
    }
    RgbImage::from_raw(width, height, data).unwrap()
}

#[test]
fn solid_red_quantizes_to_pure_red() {
    // every cluster of a solid image averages to the one color present
    let img = solid(4, 2, [255, 0, 0]);
    let q = quantize(&img, 4, 10).unwrap_or_else(|_| panic!("clustering refused"));
    assert_eq!(q.labels.len(), 8);
    assert_eq!((q.image.width, q.image.height), (4, 2));
    for p in 0..8 {
        assert_eq!(&q.image.data[3 * p..3 * p + 3], &[255, 0, 0]);
    }
}

#[test]
fn labels_cover_every_pixel_exactly_once() {
    // a 4x4 split into two color halves: one label per pixel position
    let mut data = Vec::new();
    for y in 0..4 {
        for _x in 0..4 {
            if y < 2 {
                data.extend_from_slice(&[200, 10, 10]);
            } else {
                data.extend_from_slice(&[10, 10, 200]);
            }
        }
    }
    let img = RgbImage::from_raw(4, 4, data).unwrap();
    let q = quantize(&img, 2, 10).unwrap_or_else(|_| panic!("clustering refused"));
    assert_eq!(q.labels.len(), 16);
    for &l in q.labels.iter() {
        assert!(l < 16);
    }
    assert_eq!((q.image.width, q.image.height), (4, 4));
    assert_eq!(q.image.data.len(), 48);
}

#[test]
fn zero_cluster_count_is_refused() {
    let img = solid(2, 2, [1, 2, 3]);
    assert!(quantize(&img, 0, 10).is_err());
}

#[test]
fn cluster_count_at_pixel_count_is_refused() {
    // a single pixel cannot be split into two clusters: the capability fails
    // explicitly instead of crashing
    let img = solid(1, 1, [9, 9, 9]);
    assert!(quantize(&img, 2, 10).is_err());
    assert!(quantize(&img, 1, 10).is_err());
}

#[test]
fn mean_colors_average_per_label() {
    // two pixels in one cluster: channels average with truncating division
    let img = RgbImage::from_raw(2, 1, vec![10, 20, 30, 21, 40, 50]).unwrap();
    let labels = vec![0usize, 0usize];
    let out = mean_color_image(&img, &labels);
    assert_eq!(out.data, vec![15, 30, 40, 15, 30, 40]);
}

#[test]
fn mean_colors_keep_disjoint_labels_apart() {
    let img = RgbImage::from_raw(2, 1, vec![10, 20, 30, 20, 40, 60]).unwrap();
    let labels = vec![1usize, 0usize];
    let out = mean_color_image(&img, &labels);
    assert_eq!(out.data, vec![10, 20, 30, 20, 40, 60]);
}
