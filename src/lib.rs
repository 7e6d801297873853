//! A self-calibrating render benchmark: a text stamp is drawn many times into a strip of
//! cells, each through a fixed pipeline of pixel effects, and a search finds how many cells
//! a machine renders within a time budget; the strip is then repacked into a grid of a
//! target aspect and resampled.
//!
//! - `raster`: the pixel buffer and the model of writing into it.
//! - `effects`: the six effects and the context they draw in.
//! - `render`: the effect pipeline, cells, strips and stacks of strips.
//! - `calibrate`: the search for the cell count, one render time at a time.
//! - `reflow`: the choice of grid and the resampled output.
//! - `color`: HSV to RGB.
//! - `annotation`: layout arithmetic of the result panel.
//! - `text`: the bounds of a laid-out text.

pub mod annotation;
pub mod calibrate;
pub mod color;
pub mod effects;
pub mod raster;
pub mod reflow;
pub mod render;
pub mod text;
