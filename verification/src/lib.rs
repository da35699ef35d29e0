//! Indexed path commands and stroke tessellation.
//!
//! A path is stored as a flat stream of 32-bit cells that can be walked in
//! order or decoded at any event offset in constant time. The stroke
//! tessellator turns the events of a path into a strip of triangles and hands
//! them to a geometry sink.

pub mod ids;
pub mod events;
pub mod encoding;
pub mod commands;
pub mod builder;
pub mod iter;
pub mod generic;
pub mod math;
pub mod position;
pub mod geometry_builder;
pub mod options;
pub mod record;
pub mod stroke;
pub mod tessellator;
