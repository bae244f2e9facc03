use crate::binary_diff::binary_diff_chunk::BinaryDiffChunk;
use crate::binary_diff::binary_diff_chunk::ChunkView;
use crate::binary_diff::error::BinaryDiffError;
use crate::binary_diff::helper::read_one_byte;
use crate::byte_reader::ByteReader;
use vstd::prelude::*;

verus! {

/// The two sequences agree on their first `length` bytes, and either one of
/// them ends there or they differ on the byte that follows.
pub open spec fn is_common_prefix_length(first: Seq<u8>, second: Seq<u8>, length: int) -> bool {
    &&& 0 <= length <= first.len()
    &&& length <= second.len()
    &&& forall|i: int| 0 <= i < length ==> first[i] == second[i]
    &&& length < first.len() && length < second.len() ==> first[length] != second[length]
}

/// Length of the longest prefix that two sequences have in common.
pub open spec fn common_prefix_length(first: Seq<u8>, second: Seq<u8>) -> int {
    choose|length: int| is_common_prefix_length(first, second, length)
}

/// A length that qualifies as that of the longest common prefix is the one
/// that `common_prefix_length` names.
pub proof fn lemma_common_prefix_length_is(first: Seq<u8>, second: Seq<u8>, length: int)
    requires
        is_common_prefix_length(first, second, length),
    ensures
        common_prefix_length(first, second) == length,
{
    let chosen = common_prefix_length(first, second);
    assert(is_common_prefix_length(first, second, chosen));
    if chosen < length {
        assert(first[chosen] == second[chosen]);
    }
    if length < chosen {
        assert(first[length] == second[length]);
    }
}

/// Every two sequences have a longest common prefix.
pub proof fn lemma_common_prefix_length_exists(first: Seq<u8>, second: Seq<u8>)
    ensures
        is_common_prefix_length(first, second, common_prefix_length(first, second)),
    decreases first.len(),
{
    if first.len() == 0 {
        assert(is_common_prefix_length(first, second, 0));
    } else {
        let front = first.drop_last();
        lemma_common_prefix_length_exists(front, second);
        let length = common_prefix_length(front, second);
        assert forall|i: int| 0 <= i < length implies first[i] == second[i] by {
            assert(front[i] == second[i]);
        }
        if length < front.len() {
            assert(length < second.len() ==> front[length] != second[length]);
            assert(is_common_prefix_length(first, second, length));
        } else if length < second.len() && first[length] == second[length] {
            assert(is_common_prefix_length(first, second, length + 1));
        } else {
            assert(is_common_prefix_length(first, second, length));
        }
    }
}

/// Emits the longest run on which both streams agree from their cursors on,
/// as a `Same` chunk at the cursor of the original, and moves both cursors
/// past it. Where the streams disagree at once, or one of them is at its
/// end, nothing is emitted and nothing moves.
pub fn get_same_chunk(original: &mut ByteReader, patched: &mut ByteReader) -> (result: Result<
    Option<BinaryDiffChunk>,
    BinaryDiffError,
>)
    ensures
        final(original)@ == old(original)@,
        final(patched)@ == old(patched)@,
        ({
            let length = common_prefix_length(old(original).remaining(), old(patched).remaining());
            &&& is_common_prefix_length(
                old(original).remaining(),
                old(patched).remaining(),
                length,
            )
            &&& final(original).position() == old(original).position() + length
            &&& final(patched).position() == old(patched).position() + length
            &&& result matches Ok(emitted)
            &&& match emitted {
                Some(chunk) => length > 0 && chunk@ == ChunkView::Same(
                    old(original).position(),
                    length as nat,
                ),
                None => length == 0,
            }
        }),
{
    let offset = original.stream_position();
    let start = patched.stream_position();
    let original_left = original.len() - offset;
    let patched_left = patched.len() - start;
    let limit = if original_left < patched_left {
        original_left
    } else {
        patched_left
    };
    let ghost first = original.remaining();
    let ghost second = patched.remaining();

    let mut i: usize = 0;
    while i < limit
        invariant
            original@ == old(original)@,
            patched@ == old(patched)@,
            first == old(original).remaining(),
            second == old(patched).remaining(),
            offset == old(original).position(),
            start == old(patched).position(),
            offset + limit <= original@.len() <= usize::MAX,
            start + limit <= patched@.len() <= usize::MAX,
            limit == first.len() || limit == second.len(),
            i <= limit,
            original.position() == offset + i,
            patched.position() == start + i,
            forall|k: int| 0 <= k < i ==> first[k] == second[k],
        decreases limit - i,
    {
        let original_byte = match read_one_byte(original) {
            Ok(byte) => byte,
            Err(error) => {
                return Err(error);
            },
        };
        let patched_byte = match read_one_byte(patched) {
            Ok(byte) => byte,
            Err(error) => {
                return Err(error);
            },
        };
        assert(original_byte@[0] == first[i as int]);
        assert(patched_byte@[0] == second[i as int]);
        if original_byte[0] != patched_byte[0] {
            match original.seek(offset + i) {
                Ok(()) => {},
                Err(kind) => {
                    return Err(BinaryDiffError::IoError(kind));
                },
            }
            match patched.seek(start + i) {
                Ok(()) => {},
                Err(kind) => {
                    return Err(BinaryDiffError::IoError(kind));
                },
            }
            proof {
                lemma_common_prefix_length_is(first, second, i as int);
            }
            return if i > 0 {
                Ok(Some(BinaryDiffChunk::Same(offset, i)))
            } else {
                Ok(None)
            };
        }
        i += 1;
    }
    proof {
        lemma_common_prefix_length_is(first, second, limit as int);
    }
    if limit > 0 {
        Ok(Some(BinaryDiffChunk::Same(offset, limit)))
    } else {
        Ok(None)
    }
}

} // verus!
