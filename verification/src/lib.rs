//! Wavelet scalogram analysis: the planning, bookkeeping and display logic of a
//! GPU viewer for audio, with every rule stated as a contract.

pub mod pow2;
pub mod reals;
pub mod ridge;
pub mod squeeze;
pub mod analysis;
pub mod audio;
pub mod colormap;
pub mod cuda;
pub mod decimation;
pub mod device;
pub mod engine;
pub mod extent;
pub mod geometry;
pub mod gpu;
pub mod numeric;
pub mod outputs;
pub mod plan;
pub mod prepare;
pub mod text;
pub mod viewer;
pub mod viewport;
pub mod wavelet;
pub mod worker;
