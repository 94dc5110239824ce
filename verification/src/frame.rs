//! The marker trait for coordinate frames.

use vstd::prelude::*;

verus! {

/// Marker trait for a coordinate frame.
///
/// A frame is a zero-sized type that implements this trait; everything it
/// means is carried by the type itself.
pub trait Frame: 'static {}

} // verus!
