//! The verified core of a software renderer that draws a rotating cube and the Moon: RGBA
//! frame storage, sRGB image validation and JPEG decoding, frame-sequence command lines,
//! NASA ephemeris record validation, octasphere mesh topology and elevation-slope stencils.

pub mod color;
pub mod elevation;
pub mod ephemeris;
pub mod framebuffer;
pub mod image;
pub mod lunar;
pub mod octasphere;
pub mod sequence;
pub mod surface;
pub mod text;
pub mod web;

pub use color::Srgb8;
pub use ephemeris::EphemerisError;
pub use framebuffer::{Framebuffer, RenderError};
pub use image::{decode_jpeg, InvalidSrgbImage, JpegDecodeError, SrgbImage};
pub use lunar::{AnimationCoverageError, InvalidSceneTime, InvalidSunDirection};
