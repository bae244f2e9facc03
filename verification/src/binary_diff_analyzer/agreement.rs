use crate::binary_diff::binary_diff_chunk::ChunkView;
use crate::binary_diff::edit_script::contiguous;
use crate::binary_diff::edit_script::is_edit_script;
use crate::binary_diff::edit_script::lemma_concat;
use crate::binary_diff::edit_script::patched_length;
use crate::binary_diff::edit_script::patched_output;
use crate::binary_diff::edit_script::source_length;
use crate::binary_diff_analyzer::derivation;
use crate::binary_diff_analyzer::is_producer;
use crate::binary_diff_analyzer::lemma_no_producer_beyond;
use crate::binary_diff_analyzer::lemma_producer_is;
use vstd::prelude::*;

verus! {

/// A longer prefix of a script consumes no less of the original.
pub proof fn lemma_source_length_rises(chunks: Seq<ChunkView>, shorter: int, longer: int)
    requires
        0 <= shorter <= longer <= chunks.len(),
    ensures
        source_length(chunks.take(shorter)) <= source_length(chunks.take(longer)),
    decreases longer - shorter,
{
    if shorter < longer {
        lemma_source_length_rises(chunks, shorter, longer - 1);
        assert(chunks.take(longer).drop_last() =~= chunks.take(longer - 1));
    }
}

/// Where a script walks through the original without a gap and stays
/// inside it, each prefix of it produces as many bytes as the patched
/// lengths of its chunks add up to.
pub proof fn lemma_output_length(chunks: Seq<ChunkView>, original: Seq<u8>, prefix: int)
    requires
        contiguous(chunks),
        source_length(chunks) <= original.len(),
        0 <= prefix <= chunks.len(),
    ensures
        patched_output(chunks.take(prefix), original).len() == patched_length(chunks.take(prefix)),
    decreases prefix,
{
    reveal(contiguous);
    if prefix > 0 {
        let last = chunks[prefix - 1];
        lemma_output_length(chunks, original, prefix - 1);
        assert(chunks.take(prefix).drop_last() =~= chunks.take(prefix - 1));
        assert(chunks.take(prefix).last() == last);
        assert(last.offset() + last.source_length() == source_length(chunks.take(prefix)));
        lemma_source_length_rises(chunks, prefix, chunks.len() as int);
        assert(chunks.take(chunks.len() as int) =~= chunks);
    }
}

/// Every offset that the output of a script reaches is produced by one of
/// its chunks.
pub proof fn lemma_producer_exists(chunks: Seq<ChunkView>, offset: int) -> (index: int)
    requires
        0 <= offset < patched_length(chunks),
    ensures
        is_producer(chunks, offset, index),
    decreases chunks.len(),
{
    let front = chunks.drop_last();
    let last = chunks.len() - 1;
    assert(chunks.take(last) =~= front);
    assert(chunks.take(last + 1) =~= chunks);
    if offset < patched_length(front) {
        let index = lemma_producer_exists(front, offset);
        assert(front.take(index) =~= chunks.take(index));
        assert(front.take(index + 1) =~= chunks.take(index + 1));
        index
    } else {
        last
    }
}

/// The byte at `offset` of a script's output is the byte that the chunk
/// producing that offset holds at the relative position, and that chunk
/// lies inside the original.
pub proof fn lemma_output_at(
    chunks: Seq<ChunkView>,
    original: Seq<u8>,
    offset: int,
    index: int,
)
    requires
        contiguous(chunks),
        source_length(chunks) <= original.len(),
        is_producer(chunks, offset, index),
    ensures
        ({
            let relative = offset - patched_length(chunks.take(index));
            let produced = chunks[index].produced(original);
            &&& 0 <= relative < produced.len()
            &&& produced.len() == chunks[index].patched_length()
            &&& chunks[index].offset() + chunks[index].source_length() <= original.len()
            &&& 0 <= offset < patched_output(chunks, original).len()
            &&& patched_output(chunks, original)[offset] == produced[relative]
        }),
{
    reveal(contiguous);
    let total = chunks.len() as int;
    let before = chunks.take(index);
    let through = chunks.take(index + 1);
    let after = chunks.skip(index + 1);
    lemma_output_length(chunks, original, index);
    lemma_output_length(chunks, original, index + 1);
    assert(through.drop_last() =~= before);
    assert(through.last() == chunks[index]);
    assert(chunks =~= through + after);
    lemma_concat(through, after, original);
    assert(chunks[index].offset() + chunks[index].source_length() == source_length(through));
    lemma_source_length_rises(chunks, index + 1, total);
    assert(chunks.take(total) =~= chunks);
}

/// The analyzer's domain and agreement. For an edit script from `original`
/// to `patched` and every offset of `patched`, the byte found there has a
/// derivation. Where it derives from a `Same` chunk, it is the byte of the
/// original at the chunk's offset plus the relative position; where it
/// derives from an `Insert` or a `Replace` chunk, it is the chunk's byte at
/// the relative position. It never derives from a `Delete` chunk.
pub proof fn lemma_derivation_agrees(
    chunks: Seq<ChunkView>,
    original: Seq<u8>,
    patched: Seq<u8>,
    offset: int,
)
    requires
        is_edit_script(chunks, original, patched),
        0 <= offset < patched.len(),
    ensures
        derivation(chunks, offset, patched[offset]) matches Some((index, relative)) && 0 <= index
            < chunks.len() && match chunks[index] {
            ChunkView::Same(at, length) => 0 <= relative < length && at + relative
                < original.len() && patched[offset] == original[at + relative],
            ChunkView::Insert(_, bytes) => 0 <= relative < bytes.len() && patched[offset]
                == bytes[relative],
            ChunkView::Replace(_, _, bytes) => 0 <= relative < bytes.len() && patched[offset]
                == bytes[relative],
            ChunkView::Delete(_, _) => false,
        },
{
    let total = chunks.len() as int;
    assert(chunks.take(total) =~= chunks);
    lemma_output_length(chunks, original, total);
    let index = lemma_producer_exists(chunks, offset);
    lemma_producer_is(chunks, offset, index);
    lemma_output_at(chunks, original, offset, index);
}

/// No byte derives from an offset that the output of the script does not
/// reach.
pub proof fn lemma_no_derivation_beyond(chunks: Seq<ChunkView>, offset: int, value: u8)
    requires
        offset >= patched_length(chunks),
    ensures
        derivation(chunks, offset, value) is None,
{
    lemma_no_producer_beyond(chunks, offset);
}

} // verus!
