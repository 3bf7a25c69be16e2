//! Progressive image transfer: a sender exposes an image stage by stage, from
//! coarse blocks to single pixels, and a receiver paints what it is sent.
//!
//! - [`stage`]: the schedule of seven stages and the errors of a transfer;
//! - [`scan`]: the positions that a stage samples, in their order;
//! - [`raster`]: the pixel store, over `image::ImageBuffer`;
//! - [`paint`]: filling blocks with samples;
//! - [`data`]: sender, receiver, and the driver that moves both;
//! - [`coverage`]: why seven stages reach every pixel exactly once;
//! - [`blocks`]: the arithmetic behind that;
//! - [`filter`]: the window and the weights of the smoothing filter.

pub mod blocks;
pub mod coverage;
pub mod data;
pub mod filter;
pub mod paint;
pub mod raster;
pub mod scan;
pub mod stage;
