//! Services that are put together from a service and a function, or from a factory and a
//! function.
pub mod marker;
pub mod pipeline;
