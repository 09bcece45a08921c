//! An in-memory cache of image files from watched directory trees.

pub mod cache;
pub mod config;
pub mod endpoints;
pub mod image_cache;
