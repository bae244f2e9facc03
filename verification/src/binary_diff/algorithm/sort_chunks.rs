use crate::binary_diff::binary_diff_chunk::BinaryDiffChunk;
use crate::binary_diff::binary_diff_chunk::ChunkView;
use crate::binary_diff::edit_script::all_well_formed;
use crate::binary_diff::edit_script::chunk_views;
use crate::binary_diff::edit_script::contiguous;
use vstd::prelude::*;

verus! {

/// No chunk sorts strictly before a chunk that stands earlier in the
/// script.
pub open spec fn is_sorted(chunks: Seq<ChunkView>) -> bool {
    forall|i: int, j: int| 0 <= i < j < chunks.len() ==> !chunks[j].precedes(chunks[i])
}

/// `point` is where `chunk` enters a sorted script: behind every chunk that
/// it does not precede, so at the first chunk that it precedes, or at the
/// end where there is none.
pub open spec fn is_insertion_point(sorted: Seq<ChunkView>, chunk: ChunkView, point: int) -> bool {
    &&& 0 <= point <= sorted.len()
    &&& forall|i: int| 0 <= i < point ==> !chunk.precedes(#[trigger] sorted[i])
    &&& point < sorted.len() ==> chunk.precedes(sorted[point])
}

/// The position at which `chunk` enters a sorted script.
pub open spec fn insertion_point(sorted: Seq<ChunkView>, chunk: ChunkView) -> int {
    choose|point: int| is_insertion_point(sorted, chunk, point)
}

/// A position that qualifies as the insertion point is the one that
/// `insertion_point` names.
pub proof fn lemma_insertion_point_is(sorted: Seq<ChunkView>, chunk: ChunkView, point: int)
    requires
        is_insertion_point(sorted, chunk, point),
    ensures
        insertion_point(sorted, chunk) == point,
{
    let chosen = insertion_point(sorted, chunk);
    assert(is_insertion_point(sorted, chunk, chosen));
    if chosen < point {
        assert(!chunk.precedes(sorted[chosen]));
    }
    if point < chosen {
        assert(!chunk.precedes(sorted[point]));
    }
}

/// Every chunk has an insertion point in every script.
pub proof fn lemma_insertion_point_exists(sorted: Seq<ChunkView>, chunk: ChunkView)
    ensures
        is_insertion_point(sorted, chunk, insertion_point(sorted, chunk)),
    decreases sorted.len(),
{
    if sorted.len() == 0 {
        assert(is_insertion_point(sorted, chunk, 0));
    } else {
        let front = sorted.drop_last();
        lemma_insertion_point_exists(front, chunk);
        let point = insertion_point(front, chunk);
        assert forall|i: int| 0 <= i < point implies !chunk.precedes(#[trigger] sorted[i]) by {
            assert(sorted[i] == front[i]);
        }
        if point < front.len() {
            assert(sorted[point] == front[point]);
            assert(is_insertion_point(sorted, chunk, point));
        } else if chunk.precedes(sorted.last()) {
            assert(is_insertion_point(sorted, chunk, point));
        } else {
            assert(is_insertion_point(sorted, chunk, sorted.len() as int));
        }
    }
}

/// The script sorted by offset, `Same` chunks last among the chunks of one
/// offset, and chunks that tie left in the order in which they came: each
/// chunk in turn enters at its insertion point among those before it.
pub open spec fn sorted_chunks(chunks: Seq<ChunkView>) -> Seq<ChunkView>
    decreases chunks.len(),
{
    if chunks.len() == 0 {
        Seq::empty()
    } else {
        let front = sorted_chunks(chunks.drop_last());
        front.insert(insertion_point(front, chunks.last()), chunks.last())
    }
}

/// Sorting yields a sorted script that holds the same chunks, each as often
/// as before.
pub proof fn lemma_sorted_chunks(chunks: Seq<ChunkView>)
    ensures
        is_sorted(sorted_chunks(chunks)),
        sorted_chunks(chunks).len() == chunks.len(),
        sorted_chunks(chunks).to_multiset() == chunks.to_multiset(),
    decreases chunks.len(),
{
    if chunks.len() == 0 {
        assert(chunks =~= sorted_chunks(chunks));
    } else {
        let rest = chunks.drop_last();
        let chunk = chunks.last();
        let front = sorted_chunks(rest);
        let point = insertion_point(front, chunk);
        lemma_sorted_chunks(rest);
        lemma_insertion_point_exists(front, chunk);
        let sorted = front.insert(point, chunk);
        front.insert_ensures(point, chunk);
        assert forall|i: int, j: int| 0 <= i < j < sorted.len() implies !sorted[j].precedes(
            sorted[i],
        ) by {
            if j < point {
                assert(sorted[i] == front[i] && sorted[j] == front[j]);
            } else if j == point {
                assert(sorted[i] == front[i]);
            } else if i < point {
                assert(sorted[i] == front[i] && sorted[j] == front[j - 1]);
            } else if i == point {
                assert(sorted[j] == front[j - 1]);
                assert(chunk.precedes(front[point]));
                assert(j - 1 > point ==> !front[j - 1].precedes(front[point]));
            } else {
                assert(sorted[i] == front[i - 1] && sorted[j] == front[j - 1]);
            }
        }
        vstd::seq_lib::to_multiset_insert(front, point, chunk);
        vstd::seq_lib::to_multiset_build(rest, chunk);
        assert(chunks =~= rest.push(chunk));
    }
}

/// Sorting leaves a sorted script as it is.
pub proof fn lemma_sorted_chunks_of_sorted(chunks: Seq<ChunkView>)
    requires
        is_sorted(chunks),
    ensures
        sorted_chunks(chunks) == chunks,
    decreases chunks.len(),
{
    if chunks.len() > 0 {
        let rest = chunks.drop_last();
        lemma_sorted_chunks_of_sorted(rest);
        assert forall|i: int| 0 <= i < rest.len() implies !chunks.last().precedes(
            #[trigger] rest[i],
        ) by {
            assert(rest[i] == chunks[i]);
        }
        lemma_insertion_point_is(rest, chunks.last(), rest.len() as int);
        assert(rest.insert(rest.len() as int, chunks.last()) =~= chunks);
    }
}

/// A script whose chunks are well formed and follow each other without a
/// gap is sorted.
pub proof fn lemma_contiguous_is_sorted(chunks: Seq<ChunkView>)
    requires
        all_well_formed(chunks),
        contiguous(chunks),
    ensures
        is_sorted(chunks),
{
    assert forall|i: int, j: int| 0 <= i < j < chunks.len() implies !chunks[j].precedes(
        chunks[i],
    ) by {
        lemma_offsets_rise(chunks, i, j);
    }
}

/// In such a script a later chunk applies no earlier than where an earlier
/// chunk stops.
proof fn lemma_offsets_rise(chunks: Seq<ChunkView>, i: int, j: int)
    requires
        all_well_formed(chunks),
        contiguous(chunks),
        0 <= i < j < chunks.len(),
    ensures
        chunks[i].offset() + chunks[i].source_length() <= chunks[j].offset(),
    decreases j - i,
{
    reveal(contiguous);
    assert(chunks.take(j).drop_last() =~= chunks.take(j - 1));
    assert(chunks.take(j).last() == chunks[j - 1]);
    if i < j - 1 {
        lemma_offsets_rise(chunks, i, j - 1);
    }
}

/// The chunks of `unsorted`, copied and sorted by offset, `Same` chunks
/// last among the chunks of one offset; chunks that tie keep their order.
pub fn sort_chunks(unsorted: &Vec<BinaryDiffChunk>) -> (sorted: Vec<BinaryDiffChunk>)
    ensures
        chunk_views(sorted@) == sorted_chunks(chunk_views(unsorted@)),
{
    let ghost views = chunk_views(unsorted@);
    let mut sorted: Vec<BinaryDiffChunk> = Vec::new();
    let mut taken: usize = 0;
    assert(views.take(0) =~= Seq::<ChunkView>::empty());
    while taken < unsorted.len()
        invariant
            views == chunk_views(unsorted@),
            taken <= unsorted@.len(),
            sorted@.len() == taken,
            chunk_views(sorted@) == sorted_chunks(views.take(taken as int)),
        decreases unsorted@.len() - taken,
    {
        let chunk = unsorted[taken].clone();
        let ghost front = chunk_views(sorted@);
        let mut point: usize = 0;
        while point < sorted.len() && !chunk.precedes(&sorted[point])
            invariant
                point <= sorted@.len(),
                front == chunk_views(sorted@),
                forall|i: int| 0 <= i < point ==> !chunk@.precedes(#[trigger] front[i]),
            decreases sorted@.len() - point,
        {
            point += 1;
        }
        proof {
            lemma_insertion_point_is(front, chunk@, point as int);
            assert(views.take(taken + 1).drop_last() =~= views.take(taken as int));
        }
        sorted.insert(point, chunk);
        assert(chunk_views(sorted@) =~= front.insert(point as int, chunk@));
        taken += 1;
    }
    assert(views.take(taken as int) =~= views);
    sorted
}

} // verus!
