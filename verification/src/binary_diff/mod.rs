pub mod algorithm;
pub mod binary_diff_chunk;
pub mod chunk_text;
pub mod edit_script;
pub mod error;
pub mod helper;
pub mod segmenter;

use crate::binary_diff::algorithm::introduce_replace_chunk;
use crate::binary_diff::algorithm::introduce_replace_chunk::fused;
use crate::binary_diff::algorithm::sort_chunks;
use crate::binary_diff::algorithm::sort_chunks::is_sorted;
use crate::binary_diff::algorithm::sort_chunks::lemma_contiguous_is_sorted;
use crate::binary_diff::algorithm::sort_chunks::lemma_sorted_chunks;
use crate::binary_diff::algorithm::sort_chunks::sorted_chunks;
use crate::binary_diff::binary_diff_chunk::BinaryDiffChunk;
use crate::binary_diff::binary_diff_chunk::ChunkView;
use crate::binary_diff::edit_script::alternating;
use crate::binary_diff::edit_script::chunk_views;
use crate::binary_diff::edit_script::contiguous;
use crate::binary_diff::edit_script::is_edit_script;
use crate::binary_diff::edit_script::is_partial_script;
use crate::binary_diff::error::BinaryDiffError;
use crate::binary_diff::helper::get_buffer_length;
use crate::binary_diff::segmenter::round;
use crate::binary_diff::segmenter::round_chunks;
use crate::binary_diff::segmenter::round_lengths;
use crate::binary_diff::segmenter::segments;
use crate::binary_diff::segmenter::settled;
use crate::byte_reader::ByteReader;
use vstd::prelude::*;

verus! {

/// An edit script: the chunks that turn one byte sequence into another, in
/// the order in which they apply.
#[derive(Debug, Eq, PartialEq)]
pub struct BinaryDiff {
    chunks: Vec<BinaryDiffChunk>,
}

impl View for BinaryDiff {
    type V = Seq<ChunkView>;

    closed spec fn view(&self) -> Seq<ChunkView> {
        chunk_views(self.chunks@)
    }
}

impl BinaryDiff {
    /// Computes the edit script from all of `original` to all of `patched`,
    /// wherever their cursors stand, by rounds of a `Same`, a `Delete` and
    /// an `Insert` extraction. Both cursors end at the end of their stream.
    /// A round that moved neither cursor would end the computation with
    /// `InfiniteLoopError`; no round does, so the result is always a script.
    /// That script walks through the original without a gap, produces the
    /// patched sequence from it, holds no two neighbours of one kind, and is
    /// sorted.
    pub fn new(original: &mut ByteReader, patched: &mut ByteReader) -> (result: Result<
        Self,
        BinaryDiffError,
    >)
        ensures
            final(original)@ == old(original)@,
            final(patched)@ == old(patched)@,
            final(original).position() == old(original)@.len(),
            final(patched).position() == old(patched)@.len(),
            result matches Ok(diff) && diff@ == segments(old(original)@, old(patched)@, 0)
                && is_edit_script(diff@, old(original)@, old(patched)@) && alternating(diff@)
                && is_sorted(diff@),
    {
        let original_size = match get_buffer_length(original) {
            Ok(size) => size,
            Err(error) => {
                return Err(error);
            },
        };
        let patched_size = match get_buffer_length(patched) {
            Ok(size) => size,
            Err(error) => {
                return Err(error);
            },
        };
        let ghost whole_original = original@;
        let ghost whole_patched = patched@;
        assert(original.remaining() =~= whole_original);
        assert(patched.remaining() =~= whole_patched);

        let mut chunks: Vec<BinaryDiffChunk> = Vec::new();
        assert(chunk_views(chunks@) =~= Seq::<ChunkView>::empty());
        assert(whole_patched.take(0) =~= Seq::<u8>::empty());
        assert(contiguous(Seq::<ChunkView>::empty())) by {
            reveal(contiguous);
        }
        assert(chunk_views(chunks@) + segments(whole_original, whole_patched, 0) =~= segments(
            whole_original,
            whole_patched,
            0,
        ));
        loop
            invariant_except_break
                segments(whole_original, whole_patched, 0) == chunk_views(chunks@) + segments(
                    original.remaining(),
                    patched.remaining(),
                    original.position() as int,
                ),
            invariant
                original@ == whole_original,
                patched@ == whole_patched,
                whole_original == old(original)@,
                whole_patched == old(patched)@,
                original_size == whole_original.len(),
                patched_size == whole_patched.len(),
                is_partial_script(
                    chunk_views(chunks@),
                    whole_original,
                    whole_patched,
                    original.position() as int,
                    patched.position() as int,
                ),
                alternating(chunk_views(chunks@)),
                settled(chunk_views(chunks@), original.remaining(), patched.remaining()),
            ensures
                original.position() == original_size,
                patched.position() == patched_size,
                segments(whole_original, whole_patched, 0) == chunk_views(chunks@),
            decreases
                    (original_size - original.position()) + (patched_size - patched.position()),
        {
            let original_position = original.stream_position();
            let patched_position = patched.stream_position();
            let ghost first = original.remaining();
            let ghost second = patched.remaining();
            let ghost before = chunk_views(chunks@);
            let ghost (same, delete, insert) = round_lengths(first, second);

            match round(original, patched, &mut chunks) {
                Ok(()) => {},
                Err(error) => {
                    return Err(error);
                },
            }
            let current_original_position = original.stream_position();
            let current_patched_position = patched.stream_position();
            proof {
                assert(original.remaining() =~= first.skip(same + delete));
                assert(patched.remaining() =~= second.skip(same + insert));
                let rest = segments(
                    first.skip(same + delete),
                    second.skip(same + insert),
                    original_position + same + delete,
                );
                let this_round = round_chunks(first, second, original_position as int);
                assert(before + (this_round + rest) =~= (before + this_round) + rest);
                assert(this_round + Seq::<ChunkView>::empty() =~= this_round);
            }
            if original_size == current_original_position && patched_size
                == current_patched_position {
                break ;
            }
            if original_position == current_original_position && patched_position
                == current_patched_position {
                return Err(
                    BinaryDiffError::InfiniteLoopError(original_position, patched_position),
                );
            }
        }
        proof {
            assert(whole_patched.take(whole_patched.len() as int) =~= whole_patched);
            lemma_contiguous_is_sorted(chunk_views(chunks@));
        }
        Ok(BinaryDiff { chunks })
    }

    /// The script with every `Delete` that an `Insert` follows at once fused
    /// into one `Replace`.
    pub fn enhance(&self) -> (enhanced: Self)
        ensures
            enhanced@ == fused(self@),
    {
        BinaryDiff { chunks: introduce_replace_chunk(&self.chunks) }
    }

    /// A script of the given chunks, sorted by offset, with `Same` chunks
    /// last among the chunks of one offset. Chunks that tie stay in the
    /// order in which they were given.
    pub fn from(unsorted_chunks: &Vec<BinaryDiffChunk>) -> (diff: Self)
        ensures
            diff@ == sorted_chunks(chunk_views(unsorted_chunks@)),
            is_sorted(diff@),
            diff@.to_multiset() == chunk_views(unsorted_chunks@).to_multiset(),
    {
        proof {
            lemma_sorted_chunks(chunk_views(unsorted_chunks@));
        }
        BinaryDiff { chunks: sort_chunks(unsorted_chunks) }
    }

    /// The chunks of the script, in order.
    pub fn chunks(&self) -> (chunks: &Vec<BinaryDiffChunk>)
        ensures
            chunk_views(chunks@) == self@,
    {
        &self.chunks
    }
}

} // verus!
