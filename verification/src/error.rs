//! The error type of the library.

use vstd::prelude::*;

verus! {

/// `std::io::Error`, carried by the `Io` variant.
#[verifier::external_type_specification]
#[verifier::external_body]
pub struct ExIoError(std::io::Error);

/// What can go wrong while detecting, switching or powering the GPU.
#[derive(Debug)]
pub enum GswitchError {
    /// A failed input/output operation.
    Io(std::io::Error),
    /// A GPU operation failed; the text says which.
    Gpu(String),
    /// The user asked for something that is not accepted.
    Input(String),
    /// An outside command failed.
    Process(String),
    /// This machine cannot switch GPUs.
    NotSwitchable,
    /// The operation needs root.
    NotRoot,
}

} // verus!
