//! Escape-time fractal rendering, verified.
//!
//! A frame is a grid of colors. It is computed pixel by pixel by a shader, a
//! function from the column and the row of a pixel to its color, and it can
//! be computed tile by tile: the frame is cut into rectangles that cover it
//! without overlap, each rectangle is computed into a scratch buffer of its
//! own, and the scratch buffers are copied into the frame. Tiles never share
//! a pixel, so they can be computed by workers that run side by side.
//!
//! - [`color`]: colors and the brightness ramp of escape iterations.
//! - [`escape`]: the escape-time iteration of one point.
//! - [`tile`]: rectangular regions and the four quadrants of a frame.
//! - [`grid`]: grids of any number of columns and rows.
//! - [`frame`]: the frame buffer and the scratch buffers of tiles.
//! - [`render`]: rendering a frame, tiled or direct.

pub mod color;
pub mod escape;
pub mod frame;
pub mod grid;
pub mod render;
pub mod tile;
