//! Edge overlay generation: turns a binary edge map into a same-size
//! transparency mask, opaque black where an edge was detected and fully
//! transparent elsewhere. The mask is a compositing input; the default
//! rendering path does not consume it.

use vstd::prelude::*;
use crate::raster::{GrayImage, RgbaImage};

verus! {

/// One byte of the mask: channel 3 (alpha) is 255 exactly where the edge map
/// marks an edge with value 255; every color channel is 0.
pub open spec fn mask_byte(edge: u8, ch: int) -> u8 {
    if ch == 3 && edge == 255 {
        255u8
    } else {
        0u8
    }
}

/// The RGBA mask bytes of a whole edge map.
pub open spec fn mask_seq(edges: Seq<u8>) -> Seq<u8> {
    Seq::new(4 * edges.len(), |j: int| mask_byte(edges[j / 4], j % 4))
}

/// Maps a binary edge map to its transparency mask: each pixel becomes
/// opaque black (alpha 255) where the edge map holds 255, and fully
/// transparent black elsewhere.
pub fn edge_overlay_mask(edges: &GrayImage) -> (mask: RgbaImage)
    requires
        edges.wf(),
        4 * edges.data.len() <= usize::MAX,
    ensures
        mask.wf(),
        mask.width == edges.width,
        mask.height == edges.height,
        mask.data@ == mask_seq(edges.data@),
{
    let mut data: Vec<u8> = Vec::new();
    let mut i: usize = 0;
    while i < edges.data.len()
        invariant
            edges.wf(),
            4 * edges.data.len() <= usize::MAX,
            i <= edges.data.len(),
            data.len() == 4 * i,
            data@ == mask_seq(edges.data@).take(4 * i as int),
        decreases edges.data.len() - i,
    {
        let v = edges.data[i];
        data.push(0);
        data.push(0);
        data.push(0);
        if v == 255 {
            data.push(255);
        } else {
            data.push(0);
        }
        proof {
            assert(data@ =~= mask_seq(edges.data@).take(4 * (i as int + 1)));
        }
        i = i + 1;
    }
    proof {
        assert(mask_seq(edges.data@).take(4 * edges.data.len() as int) =~= mask_seq(edges.data@));
    }
    RgbaImage { width: edges.width, height: edges.height, data }
}

} // verus!
