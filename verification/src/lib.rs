//! Verified cores of network protocols: WebSocket frames, the HTTP date, the driver of a
//! PostgreSQL connection, and pipelines of services.
//!
//! The cores do no input or output. They work on bytes that came and on bytes to be sent.
pub mod buffer;
pub mod http;
pub mod http_ws;
pub mod postgres;
pub mod service;
