//! Why access was refused.
use vstd::prelude::*;

verus! {

/// Why a key, with an optional origin, was refused.
#[derive(Debug, Clone, Copy, PartialEq, Eq, Structural)]
pub enum AccessError {
    /// The project is disabled.
    ProjectInactive,
    /// No valid key of the project has the presented value.
    KeyInvalid,
    /// The origin did not parse, or no allow-list entry admits it.
    OriginNotAllowed,
}

} // verus!
