use vstd::prelude::*;

verus! {

/// The error of an operation on a stream.
#[verifier::external_type_specification]
#[verifier::external_body]
pub struct ExIoError(std::io::Error);

/// Why the stream gave out.
#[derive(Debug)]
pub enum IoError {
    /// The other side closed the stream in the middle of a frame.
    UnexpectedEof,
    /// The stream reported an error.
    Stream(std::io::Error),
}

} // verus!
