//! The kinds of failure that the codec reports.

use vstd::prelude::*;

verus! {

/// The ways in which an operation of this library can fail.
#[derive(Debug, Clone, Copy, PartialEq, Eq, Structural)]
pub enum Error {
    /// A type code that is not four ASCII letters, or a missing PNG signature.
    InvalidFormat,
    /// A buffer that ends before the structure it announces.
    MalformedInput,
    /// A stored checksum that differs from the one computed over the content.
    IntegrityError,
    /// A payload that is not valid UTF-8 where text was asked for.
    EncodingError,
    /// No chunk of the requested type.
    NotFound,
}

} // verus!
