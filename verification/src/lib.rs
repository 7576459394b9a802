//! Exact, integer-only model of a 2-D tile map drawn from a sprite atlas.
//!
//! A map is a rectangular grid of atlas tile indices together with an
//! invertible projection from grid cells to world offsets, the slicing of the
//! atlas into a tile grid, and a policy that resolves the overlap of sprites
//! whose artwork reaches into neighbouring cells.
//!
//! All quantities are integers. Lengths in the atlas share one unit (pixels, or
//! a fixed fraction of a pixel). World offsets are counted in sub-steps of the
//! projection (see [`projection::TileProjection`]).
//!
//! A map goes through three stages, each a type of its own: a
//! [`builder::MapBuilder`] is configured freely, a [`map::MapIndexerMut`] has
//! its tiles set while its geometry is fixed, and a [`map::TileMap`] is the
//! finished map.

pub mod arith;
pub mod atlas;
pub mod buffer;
pub mod builder;
pub mod error;
pub mod geometry;
pub mod map;
pub mod overhang;
pub mod projection;
