//! Verified core of a small computer-vision toolkit: feature detection on
//! gray images, binary-descriptor distances, image convolution and pixel
//! bookkeeping used by structure-from-motion and image-processing front ends.

pub mod matches;
pub mod grid;
pub mod point;
pub mod features;
pub mod color;
pub mod conv;
pub mod triangulate;
pub mod single;
pub mod pixels;
pub mod compression;
pub mod segmentation;
pub mod recover;
pub mod sfm;
