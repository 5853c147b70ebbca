//! The error type that the library's fallible operations return.

use vstd::prelude::*;

verus! {

/// Why an operation failed. Each variant carries a human-readable message.
#[derive(Debug)]
pub enum BlastError {
    /// Configuration could not be loaded, parsed, or validated.
    Config(String),
    /// A required setup endpoint failed, so the run cannot continue.
    Setup(String),
    /// An HTTP client could not be built or a request could not be made.
    Request(String),
    /// Reading or writing a file failed.
    Io(String),
    /// JSON could not be written or read.
    Json(String),
}

} // verus!
