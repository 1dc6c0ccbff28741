//! The failures that the library reports.

use vstd::prelude::*;

verus! {

/// A failure that ends a run.
#[derive(Clone, Copy, Debug, PartialEq, Eq, Structural)]
pub enum ProcessingError {
    /// An entry could not be written as JSON text.
    JsonEncoding,
    /// An entry could not be written as MessagePack.
    BinaryEncoding,
}

impl ProcessingError {
    /// A sentence for the person who started the run.
    pub fn message(&self) -> (text: &'static str)
        ensures
            text@ == match *self {
                ProcessingError::JsonEncoding => "an entry could not be written as JSON text"@,
                ProcessingError::BinaryEncoding => "an entry could not be written as MessagePack"@,
            },
    {
        match self {
            ProcessingError::JsonEncoding => "an entry could not be written as JSON text",
            ProcessingError::BinaryEncoding => "an entry could not be written as MessagePack",
        }
    }
}

} // verus!
