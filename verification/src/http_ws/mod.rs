//! WebSocket framing.
pub mod error;
pub mod frame;
pub mod laws;
pub mod mask;
pub mod proto;
pub mod wire;
