//! The values of the JSON interface.

pub mod schema;
