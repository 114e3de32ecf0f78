//! Escape-time rendering of the Mandelbrot set: the parsing of the command-line
//! pairs and the raster loop that fills a row-major grayscale buffer.
pub mod parse;
pub mod render;
