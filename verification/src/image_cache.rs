//! The image cache: its records and the store that tracks them.

pub mod assoc;
pub mod cache;
pub mod image;
pub mod laws;
pub mod model;
