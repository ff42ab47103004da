//! Marks of how the second part of a pipeline is applied to the first.
use vstd::prelude::*;

verus! {

/// The function gets a clone of the service and the request.
pub struct EnclosedFn;

/// The function borrows the service and gets the request.
pub struct EnclosedFn2;

/// The function gets a clone of the service and the request, and the pipeline is ready when the
/// service is.
pub struct TransformFn;

/// The function maps the outcome of the service.
pub struct Mapped;

} // verus!
