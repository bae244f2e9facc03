use crate::binary_diff::error::BinaryDiffError;
use crate::binary_diff::helper::find::first_occurrence;
use crate::binary_diff::helper::find::lemma_first_occurrence_is;
use crate::binary_diff::helper::read_one_byte;
use crate::byte_reader::ByteReader;
use vstd::prelude::*;

verus! {

/// Reads forward one byte at a time until the byte under the cursor is
/// `byte`, or the stream ends. The cursor stops on that byte; the result is
/// how far it moved.
pub fn seek_to_byte(reader: &mut ByteReader, byte: u8) -> (result: Result<usize, BinaryDiffError>)
    ensures
        final(reader)@ == old(reader)@,
        result matches Ok(distance) && distance == first_occurrence(old(reader).remaining(), byte)
            && final(reader).position() == old(reader).position() + distance,
{
    let start = reader.stream_position();
    let left = reader.len() - start;
    let ghost window = reader.remaining();
    let mut distance: usize = 0;
    while distance < left
        invariant
            reader@ == old(reader)@,
            window == old(reader).remaining(),
            start == old(reader).position(),
            start + left == reader@.len() <= usize::MAX,
            distance <= left,
            reader.position() == start + distance,
            forall|i: int| 0 <= i < distance ==> window[i] != byte,
        decreases left - distance,
    {
        let read = match read_one_byte(reader) {
            Ok(read) => read,
            Err(error) => {
                return Err(error);
            },
        };
        assert(read@[0] == window[distance as int]);
        if read[0] == byte {
            match reader.seek(start + distance) {
                Ok(()) => {},
                Err(kind) => {
                    return Err(BinaryDiffError::IoError(kind));
                },
            }
            proof {
                lemma_first_occurrence_is(window, byte, distance as int);
            }
            return Ok(distance);
        }
        distance += 1;
    }
    proof {
        lemma_first_occurrence_is(window, byte, left as int);
    }
    Ok(left)
}

} // verus!
