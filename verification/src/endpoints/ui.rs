//! The values of the HTML pages.

pub mod pages;
