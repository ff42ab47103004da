//! The driver of a PostgreSQL connection.
pub mod codec;
pub mod driver;
pub mod error;
pub mod laws;
pub mod wire;
