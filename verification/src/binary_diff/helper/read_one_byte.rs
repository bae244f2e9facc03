use crate::binary_diff::error::BinaryDiffError;
use crate::byte_reader::ByteReader;
use crate::byte_reader::IoErrorKind;
use vstd::prelude::*;

verus! {

/// Reads the byte under the cursor and moves the cursor past it. At the end
/// of the stream the read fails and the cursor stays.
pub fn read_one_byte(reader: &mut ByteReader) -> (result: Result<[u8; 1], BinaryDiffError>)
    ensures
        final(reader)@ == old(reader)@,
        match result {
            Ok(byte) => {
                &&& old(reader).position() < old(reader)@.len()
                &&& byte@ == seq![old(reader)@[old(reader).position() as int]]
                &&& final(reader).position() == old(reader).position() + 1
            },
            Err(error) => {
                &&& old(reader).position() >= old(reader)@.len()
                &&& error == BinaryDiffError::IoError(IoErrorKind::UnexpectedEof)
                &&& final(reader).position() == old(reader).position()
            },
        },
{
    match reader.read_byte() {
        Ok(read) => {
            let byte = [read];
            assert(byte@ =~= seq![read]);
            Ok(byte)
        },
        Err(kind) => Err(BinaryDiffError::IoError(kind)),
    }
}

} // verus!
