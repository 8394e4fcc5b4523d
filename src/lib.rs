//! A fixed-shape grid of 32-bit pixels stored as one contiguous byte region,
//! with point access and a clipped block copy between grids.

pub mod pack;
pub mod text;
pub mod block;

pub use block::MemBlock;
