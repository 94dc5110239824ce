//! Error values of the checked constructors.

use vstd::prelude::*;

verus! {

/// What a checked spatial operation can report.
#[derive(Debug, Clone, Copy, PartialEq, Eq, Structural)]
pub enum SpatialError {
    /// A value was NaN or infinite where a finite number was required.
    NonFinite,
    /// A quaternion of zero norm was given where a unit quaternion was
    /// required.
    ZeroNormQuaternion,
}

} // verus!
