use crate::binary_diff::error::BinaryDiffError;
use crate::byte_reader::ByteReader;
use vstd::prelude::*;

verus! {

/// The total length of the stream. The cursor is left at the start,
/// wherever it stood.
pub fn get_buffer_length(reader: &mut ByteReader) -> (result: Result<usize, BinaryDiffError>)
    ensures
        final(reader)@ == old(reader)@,
        final(reader).position() == 0,
        result matches Ok(length) && length == old(reader)@.len(),
{
    let size = reader.len();
    match reader.seek(0) {
        Ok(()) => Ok(size),
        Err(kind) => Err(BinaryDiffError::IoError(kind)),
    }
}

} // verus!
