use crate::binary_diff::binary_diff_chunk::BinaryDiffChunk;
use crate::binary_diff::binary_diff_chunk::ChunkView;
use crate::binary_diff::edit_script::all_well_formed;
use crate::binary_diff::edit_script::chunk_views;
use crate::binary_diff::edit_script::contiguous;
use crate::binary_diff::edit_script::is_edit_script;
use crate::binary_diff::edit_script::lemma_concat;
use crate::binary_diff::edit_script::lemma_push;
use crate::binary_diff::edit_script::lemma_single;
use crate::binary_diff::edit_script::patched_length;
use crate::binary_diff::edit_script::patched_output;
use crate::binary_diff::edit_script::source_length;
use vstd::prelude::*;

verus! {

/// The script begins with a `Delete` that an `Insert` follows at once.
pub open spec fn starts_with_pair(chunks: Seq<ChunkView>) -> bool {
    chunks.len() >= 2 && chunks[0] is Delete && chunks[1] is Insert
}

/// The script after fusion. Read from the front: a `Delete` with an
/// `Insert` right behind it becomes one `Replace` of the deleted range by
/// the inserted bytes; every other chunk stays as it is.
pub open spec fn fused(chunks: Seq<ChunkView>) -> Seq<ChunkView>
    decreases chunks.len(),
{
    if chunks.len() == 0 {
        Seq::empty()
    } else if starts_with_pair(chunks) {
        seq![ChunkView::Replace(chunks[0]->Delete_0, chunks[0]->Delete_1, chunks[1]->Insert_1)]
            + fused(chunks.skip(2))
    } else {
        seq![chunks[0]] + fused(chunks.skip(1))
    }
}

/// A script that holds a chunk fuses to one that does, and the fused script
/// begins with an `Insert` exactly where the script does.
pub proof fn lemma_fused_first(chunks: Seq<ChunkView>)
    requires
        chunks.len() > 0,
    ensures
        fused(chunks).len() > 0,
        fused(chunks)[0] is Insert <==> chunks[0] is Insert,
        fused(chunks)[0] is Delete ==> chunks[0] is Delete && !starts_with_pair(chunks),
{
}

/// Fusion is idempotent: a fused script holds no `Delete` with an `Insert`
/// right behind it, so fusing it again changes nothing.
pub proof fn lemma_fused_idempotent(chunks: Seq<ChunkView>)
    ensures
        fused(fused(chunks)) == fused(chunks),
    decreases chunks.len(),
{
    if chunks.len() == 0 {
    } else if starts_with_pair(chunks) {
        let rest = fused(chunks.skip(2));
        let once = fused(chunks);
        lemma_fused_idempotent(chunks.skip(2));
        assert(!starts_with_pair(once));
        assert(once.skip(1) =~= rest);
    } else {
        let tail = chunks.skip(1);
        let rest = fused(tail);
        let once = fused(chunks);
        lemma_fused_idempotent(tail);
        if tail.len() > 0 {
            lemma_fused_first(tail);
            assert(tail[0] == chunks[1]);
            assert(once[1] == rest[0]);
        }
        assert(!starts_with_pair(once));
        assert(once.skip(1) =~= rest);
    }
}

/// Fusion keeps a script's meaning: the fused script consumes as much of
/// the original, produces the same output from it, and is an edit script
/// between the same two sequences where the script it came from is one.
pub proof fn lemma_fused_preserves_script(
    chunks: Seq<ChunkView>,
    original: Seq<u8>,
    patched: Seq<u8>,
)
    ensures
        source_length(fused(chunks)) == source_length(chunks),
        patched_length(fused(chunks)) == patched_length(chunks),
        patched_output(fused(chunks), original) == patched_output(chunks, original),
        all_well_formed(chunks) ==> all_well_formed(fused(chunks)),
        contiguous(chunks) ==> contiguous(fused(chunks)),
        is_edit_script(chunks, original, patched) ==> is_edit_script(
            fused(chunks),
            original,
            patched,
        ),
{
    lemma_fused_sums(chunks, original);
    lemma_fused_well_formed(chunks);
    if contiguous(chunks) {
        lemma_contiguous_from_start(chunks);
        lemma_fused_contiguous(chunks, 0);
        lemma_contiguous_from_start(fused(chunks));
    }
}

/// Fusion changes none of the three sums over a script.
proof fn lemma_fused_sums(chunks: Seq<ChunkView>, original: Seq<u8>)
    ensures
        source_length(fused(chunks)) == source_length(chunks),
        patched_length(fused(chunks)) == patched_length(chunks),
        patched_output(fused(chunks), original) == patched_output(chunks, original),
    decreases chunks.len(),
{
    if chunks.len() == 0 {
    } else if starts_with_pair(chunks) {
        let pair = seq![chunks[0], chunks[1]];
        let replace = ChunkView::Replace(
            chunks[0]->Delete_0,
            chunks[0]->Delete_1,
            chunks[1]->Insert_1,
        );
        let rest = chunks.skip(2);
        lemma_fused_sums(rest, original);
        assert(chunks =~= pair + rest);
        lemma_concat(pair, rest, original);
        lemma_concat(seq![replace], fused(rest), original);
        lemma_single(replace, original);
        lemma_single(chunks[0], original);
        lemma_push(seq![chunks[0]], chunks[1], original);
        assert(pair =~= seq![chunks[0]].push(chunks[1]));
        assert(Seq::<u8>::empty() + chunks[1].produced(original) =~= chunks[1].produced(
            original,
        ));
    } else {
        let rest = chunks.skip(1);
        lemma_fused_sums(rest, original);
        assert(chunks =~= seq![chunks[0]] + rest);
        lemma_concat(seq![chunks[0]], rest, original);
        lemma_concat(seq![chunks[0]], fused(rest), original);
    }
}

/// Fusion keeps chunks well formed.
proof fn lemma_fused_well_formed(chunks: Seq<ChunkView>)
    ensures
        all_well_formed(chunks) ==> all_well_formed(fused(chunks)),
    decreases chunks.len(),
{
    if chunks.len() == 0 {
    } else if all_well_formed(chunks) {
        let skipped: int = if starts_with_pair(chunks) {
            2
        } else {
            1
        };
        let rest = chunks.skip(skipped);
        assert forall|i: int| 0 <= i < rest.len() implies (#[trigger] rest[i]).well_formed() by {
            assert(rest[i] == chunks[i + skipped]);
        }
        lemma_fused_well_formed(rest);
        let once = fused(chunks);
        assert forall|i: int| 0 <= i < once.len() implies (#[trigger] once[i]).well_formed() by {
            if i > 0 {
                assert(once[i] == fused(rest)[i - 1]);
            } else {
                assert(chunks[0].well_formed());
                if skipped == 2 {
                    assert(chunks[1].well_formed());
                }
            }
        }
    }
}

/// Every chunk applies where the chunks before it have stopped, counted
/// from `start`.
pub open spec fn contiguous_from(chunks: Seq<ChunkView>, start: int) -> bool {
    forall|i: int|
        0 <= i < chunks.len() ==> (#[trigger] chunks[i]).offset() == start + source_length(
            chunks.take(i),
        )
}

/// A script is contiguous exactly if it is contiguous from zero.
proof fn lemma_contiguous_from_start(chunks: Seq<ChunkView>)
    ensures
        contiguous(chunks) <==> contiguous_from(chunks, 0),
{
    reveal(contiguous);
}

/// A script is contiguous from `start` exactly if its first chunk applies
/// at `start` and the rest is contiguous from where that chunk stops.
proof fn lemma_contiguous_from_front(chunks: Seq<ChunkView>, start: int)
    requires
        chunks.len() > 0,
    ensures
        contiguous_from(chunks, start) <==> chunks[0].offset() == start && contiguous_from(
            chunks.skip(1),
            start + chunks[0].source_length(),
        ),
{
    let head = seq![chunks[0]];
    let rest = chunks.skip(1);
    let original = Seq::<u8>::empty();
    lemma_single(chunks[0], original);
    assert(chunks.take(0) =~= Seq::<ChunkView>::empty());
    assert forall|i: int| 0 <= i < rest.len() implies source_length(chunks.take(i + 1))
        == chunks[0].source_length() + source_length(#[trigger] rest.take(i)) by {
        assert(chunks.take(i + 1) =~= head + rest.take(i));
        lemma_concat(head, rest.take(i), original);
    }
    if contiguous_from(chunks, start) {
        assert(chunks[0].offset() == start);
        assert forall|i: int| 0 <= i < rest.len() implies (#[trigger] rest[i]).offset() == start
            + chunks[0].source_length() + source_length(rest.take(i)) by {
            assert(rest[i] == chunks[i + 1]);
            let _ = rest.take(i);
        }
    }
    if chunks[0].offset() == start && contiguous_from(rest, start + chunks[0].source_length()) {
        assert forall|i: int| 0 <= i < chunks.len() implies (#[trigger] chunks[i]).offset()
            == start + source_length(chunks.take(i)) by {
            if i > 0 {
                assert(chunks[i] == rest[i - 1]);
                let _ = rest.take(i - 1);
            }
        }
    }
}

/// Fusion keeps a script contiguous from where it starts.
proof fn lemma_fused_contiguous(chunks: Seq<ChunkView>, start: int)
    requires
        contiguous_from(chunks, start),
    ensures
        contiguous_from(fused(chunks), start),
    decreases chunks.len(),
{
    if chunks.len() == 0 {
    } else if starts_with_pair(chunks) {
        let tail = chunks.skip(1);
        let rest = chunks.skip(2);
        let once = fused(chunks);
        lemma_contiguous_from_front(chunks, start);
        lemma_contiguous_from_front(tail, start + chunks[0].source_length());
        assert(tail.skip(1) =~= rest);
        assert(tail[0] == chunks[1]);
        lemma_fused_contiguous(rest, start + chunks[0].source_length());
        assert(once.skip(1) =~= fused(rest));
        lemma_contiguous_from_front(once, start);
    } else {
        let rest = chunks.skip(1);
        let once = fused(chunks);
        lemma_contiguous_from_front(chunks, start);
        lemma_fused_contiguous(rest, start + chunks[0].source_length());
        assert(once.skip(1) =~= fused(rest));
        lemma_contiguous_from_front(once, start);
    }
}

/// Rewrites every `Delete` that an `Insert` follows at once into one
/// `Replace`, and copies every other chunk.
pub fn introduce_replace_chunk(original_chunks: &Vec<BinaryDiffChunk>) -> (enhanced_chunks: Vec<
    BinaryDiffChunk,
>)
    ensures
        chunk_views(enhanced_chunks@) == fused(chunk_views(original_chunks@)),
{
    let ghost views = chunk_views(original_chunks@);
    let mut enhanced_chunks: Vec<BinaryDiffChunk> = Vec::new();
    let mut i: usize = 0;
    assert(views.skip(0) =~= views);
    assert(chunk_views(enhanced_chunks@) + fused(views) =~= fused(views));
    while i < original_chunks.len()
        invariant
            views == chunk_views(original_chunks@),
            i <= original_chunks@.len(),
            fused(views) == chunk_views(enhanced_chunks@) + fused(views.skip(i as int)),
        decreases original_chunks@.len() - i,
    {
        let ghost rest = views.skip(i as int);
        let ghost before = chunk_views(enhanced_chunks@);
        assert(rest[0] == original_chunks@[i as int]@);
        let fusable = match &original_chunks[i] {
            BinaryDiffChunk::Delete(_, _) => i + 1 < original_chunks.len() && match
                &original_chunks[i + 1] {
                BinaryDiffChunk::Insert(_, _) => true,
                _ => false,
            },
            _ => false,
        };
        if fusable {
            assert(rest[1] == original_chunks@[i + 1]@);
            assert(starts_with_pair(rest));
            match (&original_chunks[i], &original_chunks[i + 1]) {
                (BinaryDiffChunk::Delete(offset, length), BinaryDiffChunk::Insert(_, bytes)) => {
                    let payload = bytes.clone();
                    assert(payload@ =~= bytes@);
                    let replace = BinaryDiffChunk::Replace(*offset, *length, payload);
                    enhanced_chunks.push(replace);
                    proof {
                        assert(chunk_views(enhanced_chunks@) =~= before + seq![replace@]);
                        assert(rest.skip(2) =~= views.skip(i + 2));
                        assert(before + (seq![replace@] + fused(rest.skip(2))) =~= (before
                            + seq![replace@]) + fused(rest.skip(2)));
                    }
                },
                _ => {},
            }
            i += 2;
        } else {
            assert(!starts_with_pair(rest));
            let copy = original_chunks[i].clone();
            enhanced_chunks.push(copy);
            proof {
                assert(chunk_views(enhanced_chunks@) =~= before + seq![copy@]);
                assert(rest.skip(1) =~= views.skip(i + 1));
                assert(before + (seq![copy@] + fused(rest.skip(1))) =~= (before + seq![copy@])
                    + fused(rest.skip(1)));
            }
            i += 1;
        }
    }
    assert(chunk_views(enhanced_chunks@) + Seq::<ChunkView>::empty() =~= chunk_views(
        enhanced_chunks@,
    ));
    enhanced_chunks
}

} // verus!
