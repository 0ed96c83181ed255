//! Color information extraction for raster images: a dense row-major pixel
//! matrix, windowed averaging (box-filter downsampling), the byte-buffer
//! adapters that sit between the matrix and an external image codec, and the
//! branch selection of the RGB-to-HSV hue formula.

pub mod adapter;
pub mod color;
pub mod matrix;
pub mod reduce;
