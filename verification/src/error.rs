use vstd::prelude::*;

verus! {

/// Error kinds surfaced by the clipboard history library.
#[derive(Debug, Clone)]
pub enum ClipboardError {
    /// Filesystem failure.
    Io(String),
    /// A stored record could not be encoded or decoded.
    Serialization(String),
    /// OS clipboard access failure.
    Clipboard(String),
    /// Backing storage engine failure.
    Storage(String),
    /// Presentation-layer failure.
    Ui(String),
    /// Configuration failure.
    Config(String),
    /// Catch-all for unexpected failures.
    Unexpected(String),
}

/// Result alias used throughout the library.
pub type ClipboardResult<T> = Result<T, ClipboardError>;

impl ClipboardError {
    /// The detail text carried by the error.
    pub open spec fn spec_message(&self) -> Seq<char> {
        match self {
            ClipboardError::Io(s) => s@,
            ClipboardError::Serialization(s) => s@,
            ClipboardError::Clipboard(s) => s@,
            ClipboardError::Storage(s) => s@,
            ClipboardError::Ui(s) => s@,
            ClipboardError::Config(s) => s@,
            ClipboardError::Unexpected(s) => s@,
        }
    }

    /// Returns the detail text carried by the error.
    pub fn message(&self) -> (r: &String)
        ensures
            r@ == self.spec_message(),
    {
        match self {
            ClipboardError::Io(s) => s,
            ClipboardError::Serialization(s) => s,
            ClipboardError::Clipboard(s) => s,
            ClipboardError::Storage(s) => s,
            ClipboardError::Ui(s) => s,
            ClipboardError::Config(s) => s,
            ClipboardError::Unexpected(s) => s,
        }
    }
}

} // verus!
