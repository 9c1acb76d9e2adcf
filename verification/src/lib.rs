//! Append to a vector within a capacity fixed up front, and fill it with
//! repetitions of a slice or of its own tail.
//!
//! [`AsFixedCapacityVec::with_fixed_capacity`] reserves room in a vector and
//! lends the vector out as a [`FixedCapacityVec`], which reads what the
//! vector held and appends to it, by single elements, by blocks and by
//! repetition, without ever passing the limit fixed at the start.
//! [`decode_back_reference`] uses it to expand a run-length or LZ-style
//! back-reference at the end of a vector.

pub mod backref;
pub mod bulk;
pub mod decode;
pub mod error;
pub mod repeat;
pub mod view;

pub use crate::decode::decode_back_reference;
pub use crate::error::ExtendError;
pub use crate::view::{AsFixedCapacityVec, FixedCapacityVec};
