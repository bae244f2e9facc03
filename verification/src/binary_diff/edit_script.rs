use crate::binary_diff::binary_diff_chunk::BinaryDiffChunk;
use crate::binary_diff::binary_diff_chunk::ChunkView;
use vstd::prelude::*;

verus! {

/// The values of the chunks of a vector, in its order.
pub open spec fn chunk_views(chunks: Seq<BinaryDiffChunk>) -> Seq<ChunkView> {
    chunks.map_values(|chunk: BinaryDiffChunk| chunk@)
}

impl ChunkView {
    /// The bytes that the chunk contributes to the patched output when it is
    /// applied to `original`.
    pub open spec fn produced(self, original: Seq<u8>) -> Seq<u8> {
        match self {
            ChunkView::Same(offset, length) => original.subrange(
                offset as int,
                (offset + length) as int,
            ),
            ChunkView::Insert(_, bytes) => bytes,
            ChunkView::Delete(_, _) => Seq::empty(),
            ChunkView::Replace(_, _, bytes) => bytes,
        }
    }
}

/// How many bytes of the original the chunks consume together.
pub open spec fn source_length(chunks: Seq<ChunkView>) -> nat
    decreases chunks.len(),
{
    if chunks.len() == 0 {
        0
    } else {
        source_length(chunks.drop_last()) + chunks.last().source_length()
    }
}

/// How many bytes of patched output the chunks produce together.
pub open spec fn patched_length(chunks: Seq<ChunkView>) -> nat
    decreases chunks.len(),
{
    if chunks.len() == 0 {
        0
    } else {
        patched_length(chunks.drop_last()) + chunks.last().patched_length()
    }
}

/// The patched output: what the chunks produce from `original`, one after
/// the other.
pub open spec fn patched_output(chunks: Seq<ChunkView>, original: Seq<u8>) -> Seq<u8>
    decreases chunks.len(),
{
    if chunks.len() == 0 {
        Seq::empty()
    } else {
        patched_output(chunks.drop_last(), original) + chunks.last().produced(original)
    }
}

/// Every chunk applies at the place in the original where the chunks before
/// it have stopped.
#[verifier::opaque]
pub open spec fn contiguous(chunks: Seq<ChunkView>) -> bool {
    forall|i: int|
        0 <= i < chunks.len() ==> (#[trigger] chunks[i]).offset() == source_length(chunks.take(i))
}

/// Every chunk has a positive length and, where it carries bytes, at least
/// one.
pub open spec fn all_well_formed(chunks: Seq<ChunkView>) -> bool {
    forall|i: int| 0 <= i < chunks.len() ==> (#[trigger] chunks[i]).well_formed()
}

/// Both chunks are of one kind.
pub open spec fn same_kind(left: ChunkView, right: ChunkView) -> bool {
    ||| left is Same && right is Same
    ||| left is Insert && right is Insert
    ||| left is Delete && right is Delete
    ||| left is Replace && right is Replace
}

/// No chunk is followed by a chunk of its own kind, so no two neighbours
/// could be merged into one.
pub open spec fn alternating(chunks: Seq<ChunkView>) -> bool {
    forall|i: int| 0 <= i < chunks.len() - 1 ==> !same_kind(#[trigger] chunks[i], chunks[i + 1])
}

/// Appending a chunk of another kind than the last keeps a script
/// alternating.
pub proof fn lemma_push_alternating(chunks: Seq<ChunkView>, chunk: ChunkView)
    requires
        alternating(chunks),
        chunks.len() > 0 ==> !same_kind(chunks.last(), chunk),
    ensures
        alternating(chunks.push(chunk)),
{
    let pushed = chunks.push(chunk);
    assert forall|i: int| 0 <= i < pushed.len() - 1 implies !same_kind(
        #[trigger] pushed[i],
        pushed[i + 1],
    ) by {
        if i < chunks.len() - 1 {
            assert(pushed[i] == chunks[i] && pushed[i + 1] == chunks[i + 1]);
        }
    }
}

/// The chunks are an edit script from `original` to `patched`: applied in
/// order they walk through all of `original` without a gap, and what they
/// produce is `patched`.
pub open spec fn is_edit_script(
    chunks: Seq<ChunkView>,
    original: Seq<u8>,
    patched: Seq<u8>,
) -> bool {
    &&& all_well_formed(chunks)
    &&& contiguous(chunks)
    &&& source_length(chunks) == original.len()
    &&& patched_output(chunks, original) == patched
}

/// The chunks are an edit script from the first `original_position` bytes
/// of `original` to the first `patched_position` bytes of `patched`.
pub open spec fn is_partial_script(
    chunks: Seq<ChunkView>,
    original: Seq<u8>,
    patched: Seq<u8>,
    original_position: int,
    patched_position: int,
) -> bool {
    &&& 0 <= original_position <= original.len()
    &&& 0 <= patched_position <= patched.len()
    &&& all_well_formed(chunks)
    &&& contiguous(chunks)
    &&& source_length(chunks) == original_position
    &&& patched_output(chunks, original) == patched.take(patched_position)
}

/// What appending one chunk does to the three sums over a script.
pub proof fn lemma_push(chunks: Seq<ChunkView>, chunk: ChunkView, original: Seq<u8>)
    ensures
        source_length(chunks.push(chunk)) == source_length(chunks) + chunk.source_length(),
        patched_length(chunks.push(chunk)) == patched_length(chunks) + chunk.patched_length(),
        patched_output(chunks.push(chunk), original) == patched_output(chunks, original)
            + chunk.produced(original),
        contiguous(chunks) && chunk.offset() == source_length(chunks) ==> contiguous(
            chunks.push(chunk),
        ),
        all_well_formed(chunks) && chunk.well_formed() ==> all_well_formed(chunks.push(chunk)),
{
    let pushed = chunks.push(chunk);
    assert(pushed.drop_last() =~= chunks);
    reveal(contiguous);
    if contiguous(chunks) && chunk.offset() == source_length(chunks) {
        assert forall|i: int| 0 <= i < pushed.len() implies (#[trigger] pushed[i]).offset()
            == source_length(pushed.take(i)) by {
            if i < chunks.len() {
                assert(pushed.take(i) =~= chunks.take(i));
                assert(pushed[i] == chunks[i]);
            } else {
                assert(pushed.take(i) =~= chunks);
            }
        }
    }
}

/// The three sums over a script distribute over concatenation.
pub proof fn lemma_concat(front: Seq<ChunkView>, back: Seq<ChunkView>, original: Seq<u8>)
    ensures
        source_length(front + back) == source_length(front) + source_length(back),
        patched_length(front + back) == patched_length(front) + patched_length(back),
        patched_output(front + back, original) == patched_output(front, original)
            + patched_output(back, original),
    decreases back.len(),
{
    if back.len() == 0 {
        assert(front + back =~= front);
        assert(patched_output(front, original) + Seq::<u8>::empty() =~= patched_output(
            front,
            original,
        ));
    } else {
        assert((front + back).drop_last() =~= front + back.drop_last());
        lemma_concat(front, back.drop_last(), original);
        assert(patched_output(front, original) + (patched_output(back.drop_last(), original)
            + back.last().produced(original)) =~= (patched_output(front, original)
            + patched_output(back.drop_last(), original)) + back.last().produced(original));
    }
}

/// The three sums over a script of a single chunk.
pub proof fn lemma_single(chunk: ChunkView, original: Seq<u8>)
    ensures
        source_length(seq![chunk]) == chunk.source_length(),
        patched_length(seq![chunk]) == chunk.patched_length(),
        patched_output(seq![chunk], original) == chunk.produced(original),
{
    let nothing = Seq::<ChunkView>::empty();
    lemma_push(nothing, chunk, original);
    assert(seq![chunk] =~= nothing.push(chunk));
    assert(Seq::<u8>::empty() + chunk.produced(original) =~= chunk.produced(original));
}

} // verus!
