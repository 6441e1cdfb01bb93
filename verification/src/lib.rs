//! Turns a grid of coloured cells into a mesh of axis-aligned boxes and
//! writes that mesh out as Wavefront geometry and material text.
//!
//! The way through the crate: [`grid`] makes one unit box per sample that is
//! not fully transparent, [`optimize`] merges boxes that touch and look
//! alike, [`obj`] collects the corners and faces of the boxes that remain,
//! and [`export`] writes them out. [`model`] does all of that in one call.
//!
//! All numbers are fixed-point: an `i64` counts millionths of a grid unit
//! (see [`vec3::UNIT`]), so every operation is exact integer arithmetic.

pub mod vec3;
pub mod material;
pub mod cube;
pub mod obj;
pub mod grid;
pub mod optimize;
pub mod sheet;
pub mod text;
pub mod export;
pub mod model;
