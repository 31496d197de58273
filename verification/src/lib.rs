//! Renders a raster image as colored half-block glyph art for a text
//! terminal.
//!
//! The pipeline: build a luma histogram and derive a binary-separation
//! threshold (for the optional edge overlay), plan the largest terminal cell
//! grid that preserves the image's aspect ratio, quantize the image into
//! spatially coherent color clusters, replace each pixel with its cluster's
//! mean color, and sample the quantized image at cell centers to obtain one
//! foreground/background color pair per character cell.

pub mod grid;
pub mod histogram;
pub mod overlay;
pub mod pipeline;
pub mod quantize;
pub mod raster;
pub mod render;
