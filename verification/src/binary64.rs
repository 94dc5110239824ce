//! IEEE 754 binary64 arithmetic on encodings.
//!
//! A binary64 value is held as the 64-bit word that encodes it. The
//! operations take such words apart, compute on the integers they hold and
//! round the exact result to nearest, ties to even. [`encoding`] says which
//! number a word stands for, [`exact`] and [`rounding`] say what the
//! correctly rounded result of an operation is, and [`product`], [`sum`],
//! [`quotient`] and [`root`] compute it, each ending in [`pack`].
//! [`identities`] holds what one and zero do to a result, and [`accuracy`]
//! and [`relative`] bound the distance between rounded and exact results.

pub mod accuracy;
pub mod encoding;
pub mod exact;
pub mod identities;
pub mod pack;
pub mod product;
pub mod quotient;
pub mod relative;
pub mod root;
pub mod rounding;
pub mod sum;
pub(crate) mod wide;
