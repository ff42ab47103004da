//! Parts of HTTP.
pub mod date;
