use crate::binary_diff::algorithm::get_delete_chunk::window_of;
use crate::binary_diff::algorithm::longest_common_substring::lemma_longest_common_substring_exists;
use crate::binary_diff::algorithm::longest_common_substring::lemma_longest_common_substring_is;
use crate::binary_diff::algorithm::longest_common_substring::longest_common_substring;
use crate::binary_diff::algorithm::longest_common_substring::longest_common_substring_of;
use crate::binary_diff::binary_diff_chunk::BinaryDiffChunk;
use crate::binary_diff::binary_diff_chunk::ChunkView;
use crate::binary_diff::error::BinaryDiffError;
use crate::binary_diff::helper::find::first_occurrence;
use crate::binary_diff::helper::find::lemma_first_occurrence_exists;
use crate::binary_diff::helper::read_bytes;
use crate::binary_diff::helper::seek_to_byte;
use crate::byte_reader::ByteReader;
use vstd::prelude::*;

verus! {

/// How many bytes of the patched stream are inserted, given what is left of
/// both streams. Nothing where the patched stream has ended, and all of it
/// where the original has. Else both streams are looked at through a window
/// of up to 16 bytes: where the longest run that the windows share starts
/// the original's window, the bytes before the run in the patched window
/// are inserted; where it does not, or there is no such run, the bytes
/// before the first occurrence in the patched stream of the original's next
/// byte are (all that is left where there is no such byte).
pub open spec fn insert_length(original: Seq<u8>, patched: Seq<u8>) -> int {
    if patched.len() == 0 {
        0
    } else if original.len() == 0 {
        patched.len() as int
    } else {
        let width = vstd::math::min(patched.len() as int, 16);
        let run = longest_common_substring_of(
            window_of(original, width),
            window_of(patched, width),
        );
        if run.2 > 0 && run.0 == 0 {
            run.1
        } else {
            first_occurrence(patched, original[0])
        }
    }
}

/// What holds of the length to insert. It stays within the patched stream.
/// It is zero only where the patched stream has ended or both streams go
/// on with the same byte. Behind the inserted bytes the patched stream has
/// ended or goes on with the next byte of the original.
pub proof fn lemma_insert_length(original: Seq<u8>, patched: Seq<u8>)
    ensures
        ({
            let length = insert_length(original, patched);
            &&& 0 <= length <= patched.len()
            &&& length == 0 ==> patched.len() == 0 || (original.len() > 0 && original[0]
                == patched[0])
            &&& length > 0 ==> length == patched.len() || (original.len() > 0 && original[0]
                == patched[length])
        }),
{
    if patched.len() > 0 && original.len() > 0 {
        let width = vstd::math::min(patched.len() as int, 16);
        let old_window = window_of(original, width);
        let new_window = window_of(patched, width);
        let run = longest_common_substring_of(old_window, new_window);
        lemma_longest_common_substring_exists(old_window, new_window);
        lemma_first_occurrence_exists(patched, original[0]);
        if run.2 > 0 && run.0 == 0 {
            assert(old_window.subrange(0, run.2)[0] == new_window.subrange(
                run.1,
                run.1 + run.2,
            )[0]);
        }
    }
}

/// Emits an `Insert` chunk at the cursor of the original whose payload is
/// the next `insert_length` bytes of the patched stream, and moves the
/// cursor of the patched stream past them. Where that length is zero
/// nothing is emitted. The original is only looked at.
pub fn get_insert_chunk(original: &mut ByteReader, patched: &mut ByteReader) -> (result: Result<
    Option<BinaryDiffChunk>,
    BinaryDiffError,
>)
    ensures
        final(original)@ == old(original)@,
        final(patched)@ == old(patched)@,
        final(original).position() == old(original).position(),
        ({
            let length = insert_length(old(original).remaining(), old(patched).remaining());
            &&& 0 <= length <= old(patched).remaining().len()
            &&& final(patched).position() == old(patched).position() + length
            &&& result matches Ok(emitted)
            &&& match emitted {
                Some(chunk) => length > 0 && chunk@ == ChunkView::Insert(
                    old(original).position(),
                    old(patched).remaining().take(length),
                ),
                None => length == 0,
            }
        }),
{
    let offset = original.stream_position();
    let start = patched.stream_position();
    let original_left = original.len() - offset;
    let patched_left = patched.len() - start;
    let ghost first = original.remaining();
    let ghost second = patched.remaining();

    if patched_left == 0 {
        return Ok(None);
    }
    let length = if original_left > 0 {
        let width: usize = if patched_left < 16 {
            patched_left
        } else {
            16
        };
        let old_window = original.read_window(width);
        let new_window = patched.read_window(width);
        assert(old_window@ == window_of(first, width as int));
        assert(new_window@ == window_of(second, width as int));
        let run = longest_common_substring(old_window.as_slice(), new_window.as_slice());
        proof {
            lemma_longest_common_substring_is(
                old_window@,
                new_window@,
                run.first_pos as int,
                run.second_pos as int,
                run.length as int,
            );
        }
        if run.length > 0 && run.first_pos == 0 {
            run.second_pos
        } else {
            let byte = old_window[0];
            assert(byte == first[0]);
            let distance = match seek_to_byte(patched, byte) {
                Ok(distance) => distance,
                Err(error) => {
                    return Err(error);
                },
            };
            proof {
                lemma_first_occurrence_exists(second, byte);
            }
            match patched.seek(start) {
                Ok(()) => {},
                Err(kind) => {
                    return Err(BinaryDiffError::IoError(kind));
                },
            }
            distance
        }
    } else {
        patched_left
    };
    if length == 0 {
        return Ok(None);
    }
    let bytes = match read_bytes(patched, length) {
        Ok(bytes) => bytes,
        Err(error) => {
            return Err(error);
        },
    };
    match patched.seek(start + length) {
        Ok(()) => {},
        Err(kind) => {
            return Err(BinaryDiffError::IoError(kind));
        },
    }
    Ok(Some(BinaryDiffChunk::Insert(offset, bytes)))
}

} // verus!
