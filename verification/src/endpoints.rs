//! What the request handlers hand out: the listing's entries and the pages'
//! contents.

pub mod api;
pub mod ui;
