use vstd::prelude::*;

verus! {

/// `std::io::Error`, carried through unopened.
#[verifier::external_type_specification]
#[verifier::external_body]
pub struct ExIoError(std::io::Error);

/// Everything that can go wrong inside the library.
#[derive(Debug)]
pub enum Error {
    /// A compressed stream could not be decoded.
    IoError(std::io::Error),
    /// A file ends before the header fields that it must hold.
    TryFromSliceError,
    /// An image file announces images without pixels, or with more pixels than
    /// a 32-bit count can hold.
    InvalidImageSize,
    /// A matrix does not have the shape that the receiving layer, or the rest of
    /// the call, asks for.
    DimensionMismatch,
    /// A layer was asked to propagate a gradient backwards without holding the
    /// input of a forward call.
    BackwardWithoutForward,
}

/// What a function of the library returns where it can fail.
pub type Result<T> = std::result::Result<T, Error>;

} // verus!
