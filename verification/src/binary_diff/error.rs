use crate::byte_reader::IoErrorKind;
use vstd::prelude::*;

verus! {

/// What can end a diff computation early.
#[derive(Debug, Clone, Copy, PartialEq, Eq, Structural)]
pub enum BinaryDiffError {
    /// A read or a seek on one of the streams failed.
    IoError(IoErrorKind),
    /// A round of the segmenter moved neither cursor; the two positions are
    /// those of the original and of the patched stream.
    InfiniteLoopError(usize, usize),
}

} // verus!
