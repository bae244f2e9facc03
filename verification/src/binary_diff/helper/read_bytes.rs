use crate::binary_diff::error::BinaryDiffError;
use crate::byte_reader::ByteReader;
use crate::byte_reader::IoErrorKind;
use vstd::prelude::*;

verus! {

/// A windowed read of exactly `length` bytes: the bytes from the cursor on,
/// with the cursor back where it stood on return. Where the stream has
/// fewer bytes left, the read fails; the cursor stays then too.
pub fn read_bytes(reader: &mut ByteReader, length: usize) -> (result: Result<
    Vec<u8>,
    BinaryDiffError,
>)
    ensures
        final(reader)@ == old(reader)@,
        final(reader).position() == old(reader).position(),
        match result {
            Ok(bytes) => {
                &&& length <= old(reader).remaining().len()
                &&& bytes@ == old(reader).remaining().take(length as int)
            },
            Err(error) => {
                &&& length > old(reader).remaining().len()
                &&& error == BinaryDiffError::IoError(IoErrorKind::UnexpectedEof)
            },
        },
{
    let position = reader.stream_position();
    if length > reader.len() - position {
        return Err(BinaryDiffError::IoError(IoErrorKind::UnexpectedEof));
    }
    Ok(reader.read_window(length))
}

} // verus!
