//! Sprite atlas construction: packing of scaled image sizes into a bounded
//! canvas, the transform chain that puts each image in its slot, and the
//! manifest that records where every image landed.

pub mod geometry;
pub mod packer;
pub mod sizing;
pub mod transform;
pub mod atlas;
pub mod ingest;
