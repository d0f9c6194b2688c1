//! Shrinks presentation packages by downscaling their embedded raster images
//! while every other archive entry is carried over unchanged.

pub mod dims;
pub mod entry;
pub mod media;
pub mod errors;
pub mod transcode;
pub mod archive;
pub mod compress;
pub mod laws;
