//! Why a request to append is turned down.

use vstd::prelude::*;

verus! {

/// The two ways in which a request to append can ask for too much.
#[derive(Debug, Clone, Copy, PartialEq, Eq, Structural)]
pub enum ExtendError {
    /// The number of elements asked for does not fit in a `usize`.
    CapacityOverflow,
    /// More elements are asked for than may still be appended.
    CapacityExceeded,
}

impl ExtendError {
    /// A short description of the error.
    pub fn message(&self) -> (text: &'static str)
        ensures
            text@ == (match *self {
                ExtendError::CapacityOverflow => "capacity overflow"@,
                ExtendError::CapacityExceeded => "capacity exceeded"@,
            }),
    {
        match self {
            ExtendError::CapacityOverflow => "capacity overflow",
            ExtendError::CapacityExceeded => "capacity exceeded",
        }
    }
}

} // verus!
