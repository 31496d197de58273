use termart::histogram::{compute_histogram, otsu_threshold, otsu_thresholding};
use termart::raster::GrayImage;

fn hist_with(entries: &[(usize, u32)]) -> Vec<u32> {
    let mut h = vec![0u32; 256];
    for &(bucket, count) in entries {
        h[bucket] = count;
    }
    h
}

#[test]
fn bimodal_histogram_selects_first_split() {
    // all mass at luma 0 and luma 255: every split separates the same two
    // classes, so the first candidate wins
    let h = hist_with(&[(0, 3), (255, 5)]);
    let t = otsu_threshold(&h);
    assert!(t > 0 && t < 255);
    assert_eq!(t, 1);
}

#[test]
fn bimodal_threshold_is_scale_invariant() {
    let h = hist_with(&[(0, 3), (255, 5)]);
    let scaled = hist_with(&[(0, 21), (255, 35)]);
    assert_eq!(otsu_threshold(&h), otsu_threshold(&scaled));
}

#[test]
fn two_peaks_first_separating_split_wins() {
    // peaks at luma 10 and 200: every split between them has the same
    // between-class variance, so the lowest one is kept
    let h = hist_with(&[(10, 50), (200, 50)]);
    assert_eq!(otsu_threshold(&h), 11);
}

#[test]
fn three_peaks_maximal_variance_split_wins() {
    // 10 pixels at luma 50, 20 at 100, 30 at 200: separating {50, 100} from
    // {200} gives the larger between-class variance
    let h = hist_with(&[(50, 10), (100, 20), (200, 30)]);
    assert_eq!(otsu_threshold(&h), 101);
}

#[test]
fn single_value_histogram_floors_to_one() {
    // one occupied bucket: no split has two non-empty classes
    let h = hist_with(&[(7, 100)]);
    assert_eq!(otsu_threshold(&h), 1);
}

#[test]
fn empty_histogram_floors_to_one() {
    let h = vec![0u32; 256];
    assert_eq!(otsu_threshold(&h), 1);
}

#[test]
fn threshold_is_never_zero() {
    let mut h = vec![0u32; 256];
    for v in 0..256 {
        h[v] = (v as u32 % 7) + 1;
    }
    let t = otsu_threshold(&h);
    assert!((1..=255).contains(&t));
}

#[test]
fn thresholding_bounds_keep_two_to_one_ratio() {
    // 2x2 image with lumas 10 and 200: threshold 11, high = 4.4, low = 2.2,
    // reported in tenths
    let img = GrayImage::from_raw(2, 2, vec![10, 10, 200, 200]).unwrap();
    let (low, high) = otsu_thresholding(&img);
    assert_eq!((low, high), (22, 44));
    assert_eq!(high, 2 * low);
}

#[test]
fn histogram_counts_each_luma_value() {
    let img = GrayImage::from_raw(3, 2, vec![0, 7, 7, 255, 7, 0]).unwrap();
    let h = compute_histogram(&img);
    assert_eq!(h.len(), 256);
    assert_eq!(h[0], 2);
    assert_eq!(h[7], 3);
    assert_eq!(h[255], 1);
    assert_eq!(h[1], 0);
}

#[test]
fn histogram_counts_sum_to_pixel_count() {
    let data: Vec<u8> = (0..60u32).map(|i| (i * 37 % 256) as u8).collect();
    let img = GrayImage::from_raw(6, 10, data).unwrap();
    let h = compute_histogram(&img);
    let total: u64 = h.iter().map(|&c| c as u64).sum();
    assert_eq!(total, 60);
}
