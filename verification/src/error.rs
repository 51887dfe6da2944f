use vstd::prelude::*;

verus! {

/// What went wrong in a kernel operation.
#[derive(Debug, Clone, Copy, PartialEq, Eq, Structural)]
pub enum ErrorKind {
    /// A fixed-capacity collection has no room left.
    Full,
    /// An index lies outside the range the hardware defines.
    IndexOutofRange,
    /// No run of free frames is long enough.
    NoEnoughMemory,
    /// A physical address is not aligned to a frame boundary.
    AddressNotAligned,
}

/// An error of a kernel operation.
#[derive(Debug, Clone, Copy, PartialEq, Eq, Structural)]
pub struct Error {
    pub kind: ErrorKind,
}

impl Error {
    pub fn new(kind: ErrorKind) -> (r: Self)
        ensures
            r.kind == kind,
    {
        Error { kind }
    }
}

} // verus!
