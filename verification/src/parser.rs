//! Parsers for the ISO base media file format boxes of AVIF, the AV1
//! sequence header and the Exif payload.

pub mod exif;
pub mod mp4box;
pub mod obu;
