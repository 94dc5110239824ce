//! Coordinate frames and physical units carried in the type system.
//!
//! Points, vectors, unit quaternions and transforms are tagged with the
//! frame they are expressed in; scalar quantities are tagged with their
//! unit. Values of different frames or units are different types, so they
//! cannot be combined by accident. All numbers are IEEE 754 binary64
//! values, held by their encodings and computed in integer arithmetic.

pub mod binary64;
pub mod errors;
pub mod frame;
pub mod laws;
pub mod point;
pub mod quaternion;
pub mod scalar;
pub mod transform;
pub mod unit_norm;
pub mod units;
pub mod vector;

pub use crate::errors::SpatialError;
pub use crate::frame::Frame;
pub use crate::point::Point3;
pub use crate::quaternion::UnitQuat;
pub use crate::scalar::Double;
pub use crate::transform::Transform;
pub use crate::units::{AngleUnit, Degrees, LengthUnit, Meters, Quantity, Radians, Unit};
pub use crate::vector::Vector3;
