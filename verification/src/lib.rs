//! A Mandelbrot escape-time renderer: exact rational coordinate
//! mapping, escape-result to intensity-byte rendering, bounds and
//! coordinate parsing, and PNG encoding of the finished raster.

pub mod encode;
pub mod parse;
pub mod plane;
pub mod rat;
pub mod render;
