//! Renders sheets of variable-data tickets: layout arithmetic from physical
//! measurements to pixels and points, straight-alpha compositing, placeholder
//! resolution, stamp rendering and grid assembly.
pub mod geometry;
pub mod raster;
pub mod template;
pub mod outside;
pub mod stamps;
pub mod ticket;
pub mod sheet;
pub mod export;
