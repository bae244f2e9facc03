use crate::byte_reader::IoErrorKind;
use vstd::prelude::*;

verus! {

/// What can make a query of the analyzer fail.
#[derive(Debug, Clone, Copy, PartialEq, Eq, Structural)]
pub enum BinaryDiffAnalyzerError {
    /// The patched stream could not be read at the offset asked for.
    IoError(IoErrorKind),
}

} // verus!
