//! A deterministic, chunk-streamed starfield.
//!
//! World space is divided into cubic chunks of `CHUNK_SIZE` units per side.
//! Each chunk is populated with a small number of stars derived purely from
//! its integer coordinate, so chunks can be discarded and regenerated at
//! will.  A `ChunkStore` maintains the set of chunks covering an axis-aligned
//! window of chunk coordinates and updates it incrementally as the window
//! moves, reusing every chunk whose coordinate stays inside the window.

pub mod chunk;
pub mod chunkstore;
pub mod vector3;
