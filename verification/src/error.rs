//! The ways in which an operation of this library fails.

use vstd::prelude::*;

verus! {

/// Why an operation failed. Every failure is final for the operation: nothing here is
/// tried again or put right in silence.
#[derive(Clone, Copy, Debug, PartialEq, Eq, Structural)]
pub enum Error {
    /// A path that the operation needs cannot be found out: the user has no home
    /// directory.
    Environment,
    /// A text does not have the form that it must have: a line of the cache, an answer
    /// of the name service, an address.
    Format,
    /// The file system or the start of a process failed.
    Io,
    /// The host has no key pair on disk.
    NoIdentity,
    /// The operator declined to go on.
    Aborted,
}

} // verus!
