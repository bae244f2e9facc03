use crate::binary_diff::binary_diff_chunk::BinaryDiffChunk;
use vstd::prelude::*;

verus! {

/// The attribution of one byte of the patched output to the chunk that
/// produced it.
#[derive(Debug, Eq, PartialEq)]
pub struct DerivesFrom<'a> {
    /// Position of the byte in the patched output.
    pub patched_position: usize,
    /// Position of the byte within what the chunk produces.
    pub relative_position: usize,
    /// The chunk that produced the byte.
    pub chunk: &'a BinaryDiffChunk,
}

impl<'a> DerivesFrom<'a> {
    /// The byte lies within what the chunk produces, and where the chunk is
    /// a `Same` chunk the byte's place in the original is a machine index.
    pub open spec fn well_formed(&self) -> bool {
        &&& self.relative_position < self.chunk@.patched_length()
        &&& self.chunk@ is Same ==> self.chunk@.offset() + self.relative_position <= usize::MAX
    }

    /// The position in the original of the byte, which only a `Same` chunk
    /// has: the chunk's offset plus the byte's position within the chunk.
    pub fn original_position(&self) -> (position: Option<usize>)
        requires
            self.well_formed(),
        ensures
            position == if self.chunk@ is Same {
                Some((self.chunk@.offset() + self.relative_position) as usize)
            } else {
                None
            },
    {
        match self.chunk {
            BinaryDiffChunk::Same(original_offset, _) => Some(
                *original_offset + self.relative_position,
            ),
            _ => None,
        }
    }

    /// The position of the byte in the patched output.
    pub fn patched_position(&self) -> (position: usize)
        ensures
            position == self.patched_position,
    {
        self.patched_position
    }

    /// The position of the byte within what the chunk produces.
    pub fn relative_position(&self) -> (position: usize)
        ensures
            position == self.relative_position,
    {
        self.relative_position
    }

    /// The chunk that produced the byte.
    pub fn chunk(&self) -> (chunk: &BinaryDiffChunk)
        ensures
            chunk == self.chunk,
    {
        self.chunk
    }
}

} // verus!
