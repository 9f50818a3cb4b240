//! Kernel error codes.
use vstd::prelude::*;

verus! {

/// A kernel error code; `to_errno` gives its negative errno.
#[allow(non_camel_case_types)]
#[derive(Clone, Copy, Debug, PartialEq, Eq, Structural)]
pub enum Error {
    /// Invalid argument.
    EINVAL,
    /// Entry already exists.
    EEXIST,
}

/// The negative errno of an error.
pub open spec fn errno_of(e: Error) -> int {
    match e {
        Error::EINVAL => -22,
        Error::EEXIST => -17,
    }
}

impl Error {
    /// The errno this error stands for, a negative number.
    pub fn to_errno(self) -> (r: i32)
        ensures
            r == errno_of(self),
    {
        match self {
            Error::EINVAL => -22,
            Error::EEXIST => -17,
        }
    }
}

} // verus!
