use vstd::prelude::*;

verus! {

/// What can go wrong while locating, reading or writing the application cache.
#[derive(Clone, Copy, Debug, PartialEq, Eq, Structural)]
pub enum AppError {
    /// The host offers no cache-directory convention.
    DirectoryNotFound,
    /// A read, write or stat failed.
    Io,
    /// The cache bytes do not hold a well-formed record.
    Deserialization,
    /// An icon could not be converted to the display format.
    Conversion,
}

} // verus!
