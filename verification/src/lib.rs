//! A scoped worker-pool protocol with a verified join barrier, and a
//! two-round map/reduce pipeline that rasterizes a set of moving particles
//! into a 2D grid of cell counts.

pub mod fixed;
pub mod particles;
pub mod pipeline;
pub mod pool;
