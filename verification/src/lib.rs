//! Splits tall images into shorter pieces, cutting only inside blank
//! (low-variance) horizontal bands so that no cut falls across content.
//!
//! The core works on an explicit RGB raster and exact integer statistics:
//! per-row variance is kept as an integer numerator, the moving average as a
//! window sum, and the blank threshold (in thousandths) is compared after
//! multiplying both sides out, so every comparison is exact.

pub mod config;
pub mod naming;
pub mod pipeline;
pub mod planner;
pub mod raster;
pub mod smooth;
pub mod stats;

pub use config::Config;
pub use config::SplitError;
pub use raster::Raster;
