//! Core engine of a desktop image viewer: container-format metadata walkers,
//! a provenance detector, an EXIF orientation resolver, a character-art
//! renderer over decoded rasters, and a transport-string encoder.

pub mod cells;
pub mod chunks;
pub mod config;
pub mod encode;
pub mod exifdata;
pub mod files;
pub mod metadata;
pub mod pipeline;
pub mod provenance;
pub mod raster;
pub mod render;
pub mod sniff;
pub mod strutil;
pub mod transform;
