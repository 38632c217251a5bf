//! Invisible watermarking for images, SVG drawings and video: the verified core.
//!
//! The library holds the message framing (repetition error correction and the
//! short feature-point / SVG framings), the password-keyed bit scrambling, the
//! pseudo-noise sign sequences, the SVG text scanning and the decisions that the
//! engines make. Pixel arithmetic, image and video codecs live outside it.
pub mod text;
pub mod bits;
pub mod common;
pub mod frame;
pub mod raster;
pub mod vector;
pub mod video;
pub mod watermark;
pub mod cli;
