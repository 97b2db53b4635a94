//! Error taxonomy of the container-engine client.

use vstd::prelude::*;

verus! {

/// Failures talking to the container engine. `HyperError` stands for a
/// transport-level failure reported by the HTTP layer that drives this
/// library.
#[derive(Clone, Copy, Debug, PartialEq, Eq, Structural)]
pub enum DockerError {
    HyperError,
    BadRequest,
    InternalServerError,
    CantAttach,
    UnknownError,
    NotFound,
}

} // verus!
