//! The error kinds of the engine.

use vstd::prelude::*;

verus! {

/// What can go wrong in an operation of the engine.
#[derive(Clone, Copy, Debug, PartialEq, Eq, Structural)]
pub enum Error {
    /// A feed, column or key that the operation needs is absent.
    NotFound,
    /// The feed, column or key to create is present already.
    AlreadyExists,
    /// A name is not an allowed name, or a datatype text does not parse.
    InvalidInput,
    /// A dataset is ragged, a value does not fit its column, or a stored
    /// file is corrupt.
    InvalidData,
    /// A read reaches past the end of a file.
    UnexpectedEof,
    /// The file system reported a failure to the driver.
    IoFailure,
}

} // verus!
