//! Height maps with exact elevations, and the triangle meshes made from them.
//!
//! A [`heightmap::HeightMap`] is a square grid of elevation samples. Every
//! elevation is an exact fraction: the grid stores integers together with the
//! number of steps that make up one unit of height, so rescaling a grid loses
//! nothing to rounding. [`terrain::create_simple_terrain`] turns a grid into
//! vertex and index buffers.
//!
//! - [`heightmap`]: the grid, its construction from samples and from
//!   decoded images, and its rescaling;
//! - [`rescale`]: what rescaling means, and the laws it obeys;
//! - [`reduce`]: bringing a grid to lowest terms;
//! - [`terrain`]: the mesh of a grid;
//! - [`codec`]: the calls on decoded images, which are taken on trust;
//! - [`num`], [`reals`]: arithmetic that the other modules rest on.

pub mod codec;
pub mod error;
pub mod heightmap;
pub mod num;
pub mod reals;
pub mod reduce;
pub mod rescale;
pub mod terrain;
