//! Conversions between the spiral and cube coordinate systems for
//! hexagonal grids.
//!
//! A hexagon is named either by a single non-negative *spiral index*
//! (its position along an outward spiral walk from the origin) or by
//! *cube coordinates*: a triple `(q, r, s)` with `q + r + s == 0`.
//! This crate converts in both directions and proves the invariants
//! that bind the two representations together.

pub mod convert;
pub mod rings;
pub mod wave;

pub use convert::cube_to_spiral;
pub use convert::lemma_round_trip;
pub use convert::spiral_to_cube;
pub use rings::MAX_SPIRAL;
pub use wave::growing_trunc_tri;
pub use wave::modulo;
