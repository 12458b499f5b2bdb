//! Conversion between YUV images and RGB images.

pub mod alpha;
pub mod rgb;
pub mod rgb_impl;
