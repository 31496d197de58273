//! Superpixel color quantization: partitions the pixels into spatially
//! coherent clusters in a perceptual color space and replaces each pixel's
//! color with its cluster's mean color in the original color space.

use vstd::prelude::*;
use crate::raster::RgbImage;

verus! {

/// Error type of the clustering capability.
#[verifier::external_type_specification]
#[verifier::external_body]
pub struct ExScError(simple_clustering::error::ScError);

/// Relies on simple_clustering::slic_from_bytes: SLIC superpixel clustering
/// of an RGB byte buffer (the crate converts the bytes to the CIE Lab space
/// and clusters in joint spatial and color coordinates). On success the
/// label vector assigns every pixel exactly one label, and every label is
/// below the pixel count; a zero cluster count, a zero dimension, or a
/// cluster count not strictly below the pixel count are refused.
#[verifier::external_body]
fn slic_labels(k: u32, m: u8, width: u32, height: u32, data: &Vec<u8>) -> (r: Result<
    Vec<usize>,
    simple_clustering::error::ScError,
>)
    requires
        data.len() == 3 * (width as int * height as int),
    ensures
        r matches Ok(labels) ==> labels.len() == width as int * height as int && forall|i: int|
            0 <= i < labels.len() ==> labels[i] < labels.len(),
        k == 0 ==> r is Err,
        width == 0 || height == 0 ==> r is Err,
        k as int >= width as int * height as int ==> r is Err,
{
    simple_clustering::slic_from_bytes(k, m, width, height, None, data.as_slice())
}

/// Number of pixels among the first `n` that carry label `l`.
pub open spec fn label_count(labels: Seq<usize>, l: int, n: int) -> int
    decreases n,
{
    if n <= 0 {
        0
    } else {
        label_count(labels, l, n - 1) + if labels[n - 1] == l {
            1int
        } else {
            0int
        }
    }
}

/// Sum of channel `ch` over the first `n` pixels that carry label `l`.
pub open spec fn channel_sum(data: Seq<u8>, labels: Seq<usize>, l: int, ch: int, n: int) -> int
    decreases n,
{
    if n <= 0 {
        0
    } else {
        channel_sum(data, labels, l, ch, n - 1) + if labels[n - 1] == l {
            data[3 * (n - 1) + ch] as int
        } else {
            0int
        }
    }
}

/// The mean of channel `ch` over the cluster of label `l`, truncating.
pub open spec fn mean_channel(data: Seq<u8>, labels: Seq<usize>, l: int, ch: int) -> int {
    channel_sum(data, labels, l, ch, labels.len() as int) / label_count(
        labels,
        l,
        labels.len() as int,
    )
}

/// The quantized image bytes: every pixel's channel is replaced by the mean
/// of that channel over the pixel's cluster.
pub open spec fn mean_image_seq(data: Seq<u8>, labels: Seq<usize>) -> Seq<u8> {
    Seq::new(
        3 * labels.len(),
        |j: int| mean_channel(data, labels, labels[j / 3] as int, j % 3) as u8,
    )
}

proof fn lemma_label_count_bound(labels: Seq<usize>, l: int, n: int)
    requires
        n >= 0,
    ensures
        0 <= label_count(labels, l, n) <= n,
    decreases n,
{
    if n > 0 {
        lemma_label_count_bound(labels, l, n - 1);
    }
}

proof fn lemma_label_count_positive(labels: Seq<usize>, l: int, p: int, n: int)
    requires
        0 <= p < n,
        labels[p] == l,
    ensures
        label_count(labels, l, n) >= 1,
    decreases n,
{
    lemma_label_count_bound(labels, l, n - 1);
    if p < n - 1 {
        lemma_label_count_positive(labels, l, p, n - 1);
    }
}

proof fn lemma_channel_sum_bound(data: Seq<u8>, labels: Seq<usize>, l: int, ch: int, n: int)
    requires
        n >= 0,
    ensures
        0 <= channel_sum(data, labels, l, ch, n) <= 255 * label_count(labels, l, n),
    decreases n,
{
    if n > 0 {
        lemma_channel_sum_bound(data, labels, l, ch, n - 1);
    }
}

/// A sum bounded by 255 times the count divides down to at most 255.
proof fn lemma_mean_in_byte_range(sum: int, cnt: int)
    by (nonlinear_arith)
    requires
        cnt >= 1,
        0 <= sum <= 255 * cnt,
    ensures
        0 <= sum / cnt <= 255,
{
}

/// Replaces every pixel of `img` by the mean color of its cluster, averaging
/// each channel over all pixels that share the pixel's label, with
/// truncating division.
pub fn mean_color_image(img: &RgbImage, labels: &Vec<usize>) -> (out: RgbImage)
    requires
        img.wf(),
        labels.len() == img.width as int * img.height as int,
        forall|i: int| 0 <= i < labels.len() ==> labels[i] < labels.len(),
    ensures
        out.wf(),
        out.width == img.width,
        out.height == img.height,
        out.data@ == mean_image_seq(img.data@, labels@),
{
    let n: usize = labels.len();
    let mut counts: Vec<u64> = Vec::new();
    let mut sum_r: Vec<u128> = Vec::new();
    let mut sum_g: Vec<u128> = Vec::new();
    let mut sum_b: Vec<u128> = Vec::new();
    let mut l: usize = 0;
    while l < n
        invariant
            counts.len() == l,
            sum_r.len() == l,
            sum_g.len() == l,
            sum_b.len() == l,
            l <= n,
            forall|j: int| 0 <= j < l ==> counts[j] == 0,
            forall|j: int| 0 <= j < l ==> sum_r[j] == 0,
            forall|j: int| 0 <= j < l ==> sum_g[j] == 0,
            forall|j: int| 0 <= j < l ==> sum_b[j] == 0,
        decreases n - l,
    {
        counts.push(0);
        sum_r.push(0);
        sum_g.push(0);
        sum_b.push(0);
        l = l + 1;
    }
    let mut i: usize = 0;
    while i < n
        invariant
            img.wf(),
            labels.len() == n,
            n == img.width as int * img.height as int,
            forall|j: int| 0 <= j < n ==> labels[j] < n,
            i <= n,
            counts.len() == n,
            sum_r.len() == n,
            sum_g.len() == n,
            sum_b.len() == n,
            forall|j: int| 0 <= j < n ==> counts[j] == label_count(labels@, j, i as int),
            forall|j: int| 0 <= j < n ==> sum_r[j] == channel_sum(
                img.data@,
                labels@,
                j,
                0,
                i as int,
            ),
            forall|j: int| 0 <= j < n ==> sum_g[j] == channel_sum(
                img.data@,
                labels@,
                j,
                1,
                i as int,
            ),
            forall|j: int| 0 <= j < n ==> sum_b[j] == channel_sum(
                img.data@,
                labels@,
                j,
                2,
                i as int,
            ),
        decreases n - i,
    {
        let lab: usize = labels[i];
        let base: usize = 3 * i;
        proof {
            lemma_label_count_bound(labels@, lab as int, i as int);
            lemma_channel_sum_bound(img.data@, labels@, lab as int, 0, i as int);
            lemma_channel_sum_bound(img.data@, labels@, lab as int, 1, i as int);
            lemma_channel_sum_bound(img.data@, labels@, lab as int, 2, i as int);
            assert(255 * label_count(labels@, lab as int, i as int) <= 255 * n);
        }
        let c0 = counts[lab];
        counts[lab] = c0 + 1;
        let r0 = sum_r[lab];
        sum_r[lab] = r0 + img.data[base] as u128;
        let g0 = sum_g[lab];
        sum_g[lab] = g0 + img.data[base + 1] as u128;
        let b0 = sum_b[lab];
        sum_b[lab] = b0 + img.data[base + 2] as u128;
        i = i + 1;
    }
    let mut out: Vec<u8> = Vec::new();
    let mut p: usize = 0;
    while p < n
        invariant
            img.wf(),
            labels.len() == n,
            n == img.width as int * img.height as int,
            forall|j: int| 0 <= j < n ==> labels[j] < n,
            p <= n,
            counts.len() == n,
            sum_r.len() == n,
            sum_g.len() == n,
            sum_b.len() == n,
            forall|j: int| 0 <= j < n ==> counts[j] == label_count(labels@, j, n as int),
            forall|j: int| 0 <= j < n ==> sum_r[j] == channel_sum(img.data@, labels@, j, 0, n as int),
            forall|j: int| 0 <= j < n ==> sum_g[j] == channel_sum(img.data@, labels@, j, 1, n as int),
            forall|j: int| 0 <= j < n ==> sum_b[j] == channel_sum(img.data@, labels@, j, 2, n as int),
            out.len() == 3 * p,
            out@ == mean_image_seq(img.data@, labels@).take(3 * p as int),
        decreases n - p,
    {
        let lab: usize = labels[p];
        let cnt: u64 = counts[lab];
        proof {
            lemma_label_count_positive(labels@, lab as int, p as int, n as int);
            lemma_channel_sum_bound(img.data@, labels@, lab as int, 0, n as int);
            lemma_channel_sum_bound(img.data@, labels@, lab as int, 1, n as int);
            lemma_channel_sum_bound(img.data@, labels@, lab as int, 2, n as int);
            lemma_mean_in_byte_range(sum_r[lab as int] as int, cnt as int);
            lemma_mean_in_byte_range(sum_g[lab as int] as int, cnt as int);
            lemma_mean_in_byte_range(sum_b[lab as int] as int, cnt as int);
        }
        let mr: u8 = (sum_r[lab] / cnt as u128) as u8;
        let mg: u8 = (sum_g[lab] / cnt as u128) as u8;
        let mb: u8 = (sum_b[lab] / cnt as u128) as u8;
        out.push(mr);
        out.push(mg);
        out.push(mb);
        proof {
            assert(out@ =~= mean_image_seq(img.data@, labels@).take(3 * (p as int + 1)));
        }
        p = p + 1;
    }
    proof {
        assert(mean_image_seq(img.data@, labels@).take(3 * n as int) =~= mean_image_seq(
            img.data@,
            labels@,
        ));
    }
    RgbImage { width: img.width, height: img.height, data: out }
}

/// A quantization result: the per-pixel cluster labels and the quantized
/// image, every pixel replaced by its cluster's mean color.
pub struct Quantized {
    pub image: RgbImage,
    pub labels: Vec<usize>,
}

/// Error of the quantization stage, carrying the clustering capability's own
/// error.
pub struct QuantizeError {
    pub cluster: simple_clustering::error::ScError,
}

/// Quantizes an image into `k` spatially coherent color clusters: clusters
/// the pixels with SLIC in perceptual space, then replaces every pixel with
/// its cluster's mean color in the original color space. `m` is the
/// compactness parameter weighing spatial against color distance. Fails when
/// the clustering capability refuses its parameters, in particular whenever
/// `k` is zero or not strictly below the pixel count.
pub fn quantize(img: &RgbImage, k: u32, m: u8) -> (r: Result<Quantized, QuantizeError>)
    requires
        img.wf(),
    ensures
        r matches Ok(q) ==> {
            &&& q.image.wf()
            &&& q.image.width == img.width
            &&& q.image.height == img.height
            &&& q.labels.len() == img.width as int * img.height as int
            &&& forall|i: int| 0 <= i < q.labels.len() ==> q.labels[i] < q.labels.len()
            &&& q.image.data@ == mean_image_seq(img.data@, q.labels@)
        },
        k == 0 ==> r is Err,
        k as int >= img.width as int * img.height as int ==> r is Err,
{
    match slic_labels(k, m, img.width, img.height, &img.data) {
        Ok(labels) => {
            let image = mean_color_image(img, &labels);
            Ok(Quantized { image, labels })
        },
        Err(e) => Err(QuantizeError { cluster: e }),
    }
}

} // verus!
