//! Control-point editing, curve rasterisation and colour handling for an
//! interactive Bezier and spline editor.
pub mod color;
pub mod raster;
pub mod glyph;
pub mod editor;
