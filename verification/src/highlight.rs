use crate::binary_diff::binary_diff_chunk::BinaryDiffChunk;
use crate::binary_diff::binary_diff_chunk::ChunkView;
use crate::binary_diff::edit_script::chunk_views;
use crate::binary_diff::edit_script::patched_length;
use crate::binary_diff::BinaryDiff;
use crate::binary_diff_analyzer::lemma_no_producer_beyond;
use crate::binary_diff_analyzer::lemma_producer_is;
use crate::binary_diff_analyzer::producer;
use std::collections::HashSet;
use vstd::prelude::*;

verus! {

/// The chunk is a `Delete` whose range holds `position` of the original.
pub open spec fn deletes(chunk: ChunkView, position: int) -> bool {
    chunk matches ChunkView::Delete(offset, length) && offset <= position < offset + length
}

/// Some chunk of the script deletes the byte at `position` of the original.
pub open spec fn is_deleted(chunks: Seq<ChunkView>, position: int) -> bool {
    exists|index: int| 0 <= index < chunks.len() && deletes(#[trigger] chunks[index], position)
}

/// The byte at `position` of the patched output is produced by an `Insert`
/// or a `Replace` chunk.
pub open spec fn is_inserted(chunks: Seq<ChunkView>, position: int) -> bool {
    producer(chunks, position) matches Some(index) && (chunks[index] is Insert
        || chunks[index] is Replace)
}

/// The positions of the original that a `Delete` chunk of the diff removes.
pub fn deleted_positions(diff: &BinaryDiff) -> (positions: HashSet<usize>)
    ensures
        forall|position: usize| #[trigger]
            positions@.contains(position) <==> is_deleted(diff@, position as int),
{
    let chunks = diff.chunks();
    let ghost views = diff@;
    let mut positions: HashSet<usize> = HashSet::new();
    let mut i: usize = 0;
    while i < chunks.len()
        invariant
            views == chunk_views(chunks@),
            i <= chunks@.len(),
            forall|position: usize| #[trigger]
                positions@.contains(position) <==> is_deleted(
                    views.take(i as int),
                    position as int,
                ),
        decreases chunks@.len() - i,
    {
        let ghost done = views.take(i as int);
        let ghost next = views.take(i + 1);
        let ghost before = positions@;
        proof {
            assert(next.drop_last() =~= done);
            assert(next.last() == views[i as int]);
            assert forall|position: int| is_deleted(next, position) <==> is_deleted(
                done,
                position,
            ) || deletes(views[i as int], position) by {
                if is_deleted(next, position) {
                    let index = choose|index: int|
                        0 <= index < next.len() && deletes(#[trigger] next[index], position);
                    if index < i {
                        assert(done[index] == next[index]);
                    }
                }
                if is_deleted(done, position) {
                    let index = choose|index: int|
                        0 <= index < done.len() && deletes(#[trigger] done[index], position);
                    assert(done[index] == next[index]);
                }
                if deletes(views[i as int], position) {
                    assert(next[i as int] == views[i as int]);
                }
            }
        }
        match &chunks[i] {
            BinaryDiffChunk::Delete(offset, length) => {
                let mut covered: usize = 0;
                while covered < *length && covered <= usize::MAX - *offset
                    invariant
                        covered <= *length,
                        forall|position: usize| #[trigger]
                            positions@.contains(position) <==> before.contains(position) || (
                            *offset <= position < *offset + covered),
                    decreases *length - covered,
                {
                    positions.insert(*offset + covered);
                    covered += 1;
                }
            },
            _ => {},
        }
        i += 1;
    }
    assert(views.take(i as int) =~= views);
    positions
}

/// The positions of the patched output that an `Insert` or a `Replace`
/// chunk of the diff produces.
pub fn inserted_positions(diff: &BinaryDiff) -> (positions: HashSet<usize>)
    ensures
        forall|position: usize| #[trigger]
            positions@.contains(position) <==> is_inserted(diff@, position as int),
{
    let chunks = diff.chunks();
    let ghost views = diff@;
    let mut positions: HashSet<usize> = HashSet::new();
    let mut cursor: usize = 0;
    let mut in_reach: bool = true;
    let mut i: usize = 0;
    assert(views.take(0) =~= Seq::<ChunkView>::empty());
    while i < chunks.len() && in_reach
        invariant
            views == chunk_views(chunks@),
            i <= chunks@.len(),
            in_reach ==> cursor == patched_length(views.take(i as int)),
            !in_reach ==> patched_length(views.take(i as int)) > usize::MAX,
            forall|position: usize| #[trigger]
                positions@.contains(position) <==> is_inserted(views, position as int) && (
                in_reach ==> position < cursor),
        decreases chunks@.len() - i,
    {
        let chunk = &chunks[i];
        let produced = chunk.patched_length();
        let highlighted = match chunk {
            BinaryDiffChunk::Insert(_, _) => true,
            BinaryDiffChunk::Replace(_, _, _) => true,
            _ => false,
        };
        let ghost before = positions@;
        proof {
            assert(views.take(i + 1).drop_last() =~= views.take(i as int));
            assert(views.take(i + 1).last() == chunk@);
            assert forall|position: int| cursor <= position < cursor + produced implies producer(
                views,
                position,
            ) == Some(i as int) by {
                lemma_producer_is(views, position, i as int);
            }
        }
        if highlighted {
            let mut covered: usize = 0;
            while covered < produced && covered <= usize::MAX - cursor
                invariant
                    covered <= produced,
                    forall|position: usize| #[trigger]
                        positions@.contains(position) <==> before.contains(position) || (cursor
                            <= position < cursor + covered),
                decreases produced - covered,
            {
                positions.insert(cursor + covered);
                covered += 1;
            }
        }
        if produced <= usize::MAX - cursor {
            cursor = cursor + produced;
        } else {
            in_reach = false;
        }
        i += 1;
    }
    proof {
        if in_reach {
            assert(views.take(i as int) =~= views);
            assert forall|position: usize| position >= cursor implies !is_inserted(
                views,
                position as int,
            ) by {
                lemma_no_producer_beyond(views, position as int);
            }
        }
    }
    positions
}

} // verus!
