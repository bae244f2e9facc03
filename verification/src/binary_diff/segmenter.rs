use crate::binary_diff::algorithm::get_delete_chunk;
use crate::binary_diff::algorithm::get_delete_chunk::delete_length;
use crate::binary_diff::algorithm::get_delete_chunk::lemma_delete_length;
use crate::binary_diff::algorithm::get_insert_chunk;
use crate::binary_diff::algorithm::get_insert_chunk::insert_length;
use crate::binary_diff::algorithm::get_insert_chunk::lemma_insert_length;
use crate::binary_diff::algorithm::get_same_chunk;
use crate::binary_diff::algorithm::get_same_chunk::common_prefix_length;
use crate::binary_diff::algorithm::get_same_chunk::is_common_prefix_length;
use crate::binary_diff::algorithm::get_same_chunk::lemma_common_prefix_length_exists;
use crate::binary_diff::algorithm::get_same_chunk::lemma_common_prefix_length_is;
use crate::binary_diff::binary_diff_chunk::BinaryDiffChunk;
use crate::binary_diff::binary_diff_chunk::ChunkView;
use crate::binary_diff::edit_script::alternating;
use crate::binary_diff::edit_script::chunk_views;
use crate::binary_diff::edit_script::is_partial_script;
use crate::binary_diff::edit_script::lemma_push;
use crate::binary_diff::edit_script::lemma_push_alternating;
use crate::binary_diff::edit_script::patched_output;
use crate::binary_diff::error::BinaryDiffError;
use crate::byte_reader::ByteReader;
use vstd::prelude::*;

verus! {

/// The lengths of the `Same`, the `Delete` and the `Insert` chunk of one
/// round of the segmenter, given what is left of both streams. A length of
/// zero stands for a chunk that is not emitted.
pub open spec fn round_lengths(original: Seq<u8>, patched: Seq<u8>) -> (int, int, int) {
    let same = common_prefix_length(original, patched);
    let delete = delete_length(original.skip(same), patched.skip(same));
    let insert = insert_length(original.skip(same + delete), patched.skip(same));
    (same, delete, insert)
}

/// A `Same` chunk of `length` bytes at `offset`, or nothing where `length`
/// is zero.
pub open spec fn same_chunk(offset: int, length: int) -> Seq<ChunkView> {
    if length > 0 {
        seq![ChunkView::Same(offset as nat, length as nat)]
    } else {
        Seq::empty()
    }
}

/// A `Delete` chunk of `length` bytes at `offset`, or nothing where
/// `length` is zero.
pub open spec fn delete_chunk(offset: int, length: int) -> Seq<ChunkView> {
    if length > 0 {
        seq![ChunkView::Delete(offset as nat, length as nat)]
    } else {
        Seq::empty()
    }
}

/// An `Insert` chunk of `bytes` at `offset`, or nothing where there are no
/// bytes.
pub open spec fn insert_chunk(offset: int, bytes: Seq<u8>) -> Seq<ChunkView> {
    if bytes.len() > 0 {
        seq![ChunkView::Insert(offset as nat, bytes)]
    } else {
        Seq::empty()
    }
}

/// The chunks that one round emits when the cursor of the original stands
/// at `offset`.
pub open spec fn round_chunks(original: Seq<u8>, patched: Seq<u8>, offset: int) -> Seq<ChunkView> {
    let (same, delete, insert) = round_lengths(original, patched);
    same_chunk(offset, same) + delete_chunk(offset + same, delete) + insert_chunk(
        offset + same + delete,
        patched.skip(same).take(insert),
    )
}

/// The whole edit script when the cursor of the original stands at
/// `offset`: the chunks of round after round, until a round has used up
/// both streams. The recursion goes on behind every round that has moved
/// a cursor and left something over; by `lemma_round_advances` a round
/// that leaves something over has moved one.
pub open spec fn segments(original: Seq<u8>, patched: Seq<u8>, offset: int) -> Seq<ChunkView>
    decreases original.len() + patched.len(),
{
    let (same, delete, insert) = round_lengths(original, patched);
    let from_original = same + delete;
    let from_patched = same + insert;
    if 0 <= from_original <= original.len() && 0 <= from_patched <= patched.len() && 0
        < from_original + from_patched < original.len() + patched.len() {
        round_chunks(original, patched, offset) + segments(
            original.skip(from_original),
            patched.skip(from_patched),
            offset + from_original,
        )
    } else {
        round_chunks(original, patched, offset)
    }
}

/// What the last chunk of a script under construction says of the streams
/// behind it. Behind a `Same` chunk the streams do not go on alike. Behind
/// a `Delete` chunk that no `Insert` followed, and behind an `Insert`
/// chunk, they do go on alike, unless the patched stream has ended, and
/// behind the `Delete` the original with it.
pub(crate) open spec fn settled(
    chunks: Seq<ChunkView>,
    original: Seq<u8>,
    patched: Seq<u8>,
) -> bool {
    chunks.len() > 0 ==> match chunks.last() {
        ChunkView::Same(_, _) => common_prefix_length(original, patched) == 0,
        ChunkView::Delete(_, _) => (original.len() == 0 && patched.len() == 0)
            || common_prefix_length(original, patched) > 0,
        ChunkView::Insert(_, _) => patched.len() == 0 || common_prefix_length(original, patched)
            > 0,
        ChunkView::Replace(_, _, _) => true,
    }
}

/// What the last chunk of a script under construction says of the streams
/// behind it once the `Same` and the `Delete` extraction of a round are
/// done. Behind a `Same` chunk the streams do not go on alike. Behind a
/// `Delete` chunk the original has ended where the patched stream has.
/// Behind an `Insert` chunk the patched stream has ended.
pub(crate) open spec fn ready_to_insert(
    chunks: Seq<ChunkView>,
    original: Seq<u8>,
    patched: Seq<u8>,
) -> bool {
    chunks.len() > 0 ==> match chunks.last() {
        ChunkView::Same(_, _) => common_prefix_length(original, patched) == 0,
        ChunkView::Delete(_, _) => patched.len() == 0 ==> original.len() == 0,
        ChunkView::Insert(_, _) => patched.len() == 0,
        ChunkView::Replace(_, _, _) => true,
    }
}

/// Two streams that start with the same byte have a common prefix.
proof fn lemma_common_start(original: Seq<u8>, patched: Seq<u8>)
    requires
        original.len() > 0,
        patched.len() > 0,
        original[0] == patched[0],
    ensures
        common_prefix_length(original, patched) > 0,
{
    lemma_common_prefix_length_exists(original, patched);
}

/// Appends `chunk` to the script under construction.
fn emit(chunks: &mut Vec<BinaryDiffChunk>, chunk: BinaryDiffChunk)
    ensures
        chunk_views(final(chunks)@) == chunk_views(old(chunks)@).push(chunk@),
{
    chunks.push(chunk);
    assert(chunk_views(chunks@) =~= chunk_views(old(chunks)@).push(chunk@));
}

/// Runs the `Same` extraction and appends what it emits.
fn same_step(
    original: &mut ByteReader,
    patched: &mut ByteReader,
    chunks: &mut Vec<BinaryDiffChunk>,
) -> (result: Result<(), BinaryDiffError>)
    requires
        is_partial_script(
            chunk_views(old(chunks)@),
            old(original)@,
            old(patched)@,
            old(original).position() as int,
            old(patched).position() as int,
        ),
        alternating(chunk_views(old(chunks)@)),
        settled(chunk_views(old(chunks)@), old(original).remaining(), old(patched).remaining()),
    ensures
        final(original)@ == old(original)@,
        final(patched)@ == old(patched)@,
        result is Ok,
        alternating(chunk_views(final(chunks)@)),
        settled(
            chunk_views(final(chunks)@),
            final(original).remaining(),
            final(patched).remaining(),
        ),
        common_prefix_length(final(original).remaining(), final(patched).remaining()) == 0,
        ({
            let first = old(original).remaining();
            let second = old(patched).remaining();
            let same = common_prefix_length(first, second);
            &&& is_common_prefix_length(first, second, same)
            &&& final(original).position() == old(original).position() + same
            &&& final(patched).position() == old(patched).position() + same
            &&& final(original).remaining() == first.skip(same)
            &&& final(patched).remaining() == second.skip(same)
            &&& chunk_views(final(chunks)@) == chunk_views(old(chunks)@) + same_chunk(
                old(original).position() as int,
                same,
            )
        }),
        is_partial_script(
            chunk_views(final(chunks)@),
            final(original)@,
            final(patched)@,
            final(original).position() as int,
            final(patched).position() as int,
        ),
{
    let ghost first = original.remaining();
    let ghost second = patched.remaining();
    let ghost start = patched.position() as int;
    let ghost before = chunk_views(chunks@);
    match get_same_chunk(original, patched) {
        Ok(Some(chunk)) => {
            proof {
                let same = chunk@.patched_length() as int;
                lemma_push(before, chunk@, original@);
                lemma_push_alternating(before, chunk@);
                lemma_common_prefix_length_is(first.skip(same), second.skip(same), 0);
                assert(chunk@.produced(original@) =~= second.take(same));
                assert(patched@.take(start) + second.take(same) =~= patched@.take(start + same));
                assert(before.push(chunk@) =~= before + seq![chunk@]);
            }
            emit(chunks, chunk);
        },
        Ok(None) => {
            assert(before =~= before + Seq::<ChunkView>::empty());
        },
        Err(error) => {
            return Err(error);
        },
    }
    assert(original.remaining() =~= old(original).remaining().skip(
        original.position() - old(original).position(),
    ));
    assert(patched.remaining() =~= second.skip(patched.position() - start));
    Ok(())
}

/// Runs the `Delete` extraction and appends what it emits.
fn delete_step(
    original: &mut ByteReader,
    patched: &mut ByteReader,
    chunks: &mut Vec<BinaryDiffChunk>,
) -> (result: Result<(), BinaryDiffError>)
    requires
        is_partial_script(
            chunk_views(old(chunks)@),
            old(original)@,
            old(patched)@,
            old(original).position() as int,
            old(patched).position() as int,
        ),
        alternating(chunk_views(old(chunks)@)),
        settled(chunk_views(old(chunks)@), old(original).remaining(), old(patched).remaining()),
        common_prefix_length(old(original).remaining(), old(patched).remaining()) == 0,
    ensures
        final(original)@ == old(original)@,
        final(patched)@ == old(patched)@,
        final(patched).position() == old(patched).position(),
        result is Ok,
        alternating(chunk_views(final(chunks)@)),
        ready_to_insert(
            chunk_views(final(chunks)@),
            final(original).remaining(),
            final(patched).remaining(),
        ),
        ({
            let first = old(original).remaining();
            let delete = delete_length(first, old(patched).remaining());
            &&& 0 <= delete <= first.len()
            &&& final(original).position() == old(original).position() + delete
            &&& final(original).remaining() == first.skip(delete)
            &&& chunk_views(final(chunks)@) == chunk_views(old(chunks)@) + delete_chunk(
                old(original).position() as int,
                delete,
            )
        }),
        is_partial_script(
            chunk_views(final(chunks)@),
            final(original)@,
            final(patched)@,
            final(original).position() as int,
            final(patched).position() as int,
        ),
{
    let ghost before = chunk_views(chunks@);
    match get_delete_chunk(original, patched) {
        Ok(Some(chunk)) => {
            proof {
                lemma_push(before, chunk@, original@);
                lemma_push_alternating(before, chunk@);
                assert(patched_output(before, original@) + chunk@.produced(original@)
                    =~= patched_output(before, original@));
                assert(before.push(chunk@) =~= before + seq![chunk@]);
            }
            emit(chunks, chunk);
        },
        Ok(None) => {
            assert(before =~= before + Seq::<ChunkView>::empty());
        },
        Err(error) => {
            return Err(error);
        },
    }
    assert(original.remaining() =~= old(original).remaining().skip(
        original.position() - old(original).position(),
    ));
    Ok(())
}

/// Runs the `Insert` extraction and appends what it emits.
fn insert_step(
    original: &mut ByteReader,
    patched: &mut ByteReader,
    chunks: &mut Vec<BinaryDiffChunk>,
) -> (result: Result<(), BinaryDiffError>)
    requires
        is_partial_script(
            chunk_views(old(chunks)@),
            old(original)@,
            old(patched)@,
            old(original).position() as int,
            old(patched).position() as int,
        ),
        alternating(chunk_views(old(chunks)@)),
        ready_to_insert(
            chunk_views(old(chunks)@),
            old(original).remaining(),
            old(patched).remaining(),
        ),
    ensures
        final(original)@ == old(original)@,
        final(patched)@ == old(patched)@,
        final(original).position() == old(original).position(),
        result is Ok,
        alternating(chunk_views(final(chunks)@)),
        settled(
            chunk_views(final(chunks)@),
            final(original).remaining(),
            final(patched).remaining(),
        ),
        ({
            let first = old(original).remaining();
            let second = old(patched).remaining();
            let insert = insert_length(first, second);
            &&& 0 <= insert <= second.len()
            &&& insert == 0 ==> second.len() == 0 || (first.len() > 0 && first[0] == second[0])
            &&& final(patched).position() == old(patched).position() + insert
            &&& final(patched).remaining() == second.skip(insert)
            &&& chunk_views(final(chunks)@) == chunk_views(old(chunks)@) + insert_chunk(
                old(original).position() as int,
                second.take(insert),
            )
        }),
        is_partial_script(
            chunk_views(final(chunks)@),
            final(original)@,
            final(patched)@,
            final(original).position() as int,
            final(patched).position() as int,
        ),
{
    let ghost first = original.remaining();
    let ghost second = patched.remaining();
    let ghost start = patched.position() as int;
    let ghost before = chunk_views(chunks@);
    proof {
        lemma_insert_length(first, second);
    }
    match get_insert_chunk(original, patched) {
        Ok(Some(chunk)) => {
            proof {
                let insert = chunk@.patched_length() as int;
                lemma_push(before, chunk@, original@);
                lemma_push_alternating(before, chunk@);
                if insert < second.len() {
                    assert(second.skip(insert)[0] == second[insert]);
                    lemma_common_start(first, second.skip(insert));
                }
                assert(patched@.take(start) + second.take(insert) =~= patched@.take(
                    start + insert,
                ));
                assert(before.push(chunk@) =~= before + seq![chunk@]);
            }
            emit(chunks, chunk);
        },
        Ok(None) => {
            proof {
                assert(before =~= before + Seq::<ChunkView>::empty());
                assert(second.skip(0) =~= second);
                if second.len() > 0 {
                    lemma_common_start(first, second);
                }
            }
        },
        Err(error) => {
            return Err(error);
        },
    }
    assert(patched.remaining() =~= second.skip(patched.position() - start));
    Ok(())
}

/// One round of the segmenter: a `Same`, a `Delete` and an `Insert`
/// extraction, each appending what it emits. Unless both streams had
/// ended, at least one cursor moves.
pub(crate) fn round(
    original: &mut ByteReader,
    patched: &mut ByteReader,
    chunks: &mut Vec<BinaryDiffChunk>,
) -> (result: Result<(), BinaryDiffError>)
    requires
        is_partial_script(
            chunk_views(old(chunks)@),
            old(original)@,
            old(patched)@,
            old(original).position() as int,
            old(patched).position() as int,
        ),
        alternating(chunk_views(old(chunks)@)),
        settled(chunk_views(old(chunks)@), old(original).remaining(), old(patched).remaining()),
    ensures
        final(original)@ == old(original)@,
        final(patched)@ == old(patched)@,
        result is Ok,
        alternating(chunk_views(final(chunks)@)),
        settled(
            chunk_views(final(chunks)@),
            final(original).remaining(),
            final(patched).remaining(),
        ),
        ({
            let first = old(original).remaining();
            let second = old(patched).remaining();
            let (same, delete, insert) = round_lengths(first, second);
            &&& same >= 0 && delete >= 0 && insert >= 0
            &&& same + delete <= first.len()
            &&& same + insert <= second.len()
            &&& final(original).position() == old(original).position() + same + delete
            &&& final(patched).position() == old(patched).position() + same + insert
            &&& final(original).remaining() == first.skip(same + delete)
            &&& final(patched).remaining() == second.skip(same + insert)
            &&& first.len() + second.len() > 0 ==> same + delete + insert > 0
        }),
        chunk_views(final(chunks)@) == chunk_views(old(chunks)@) + round_chunks(
            old(original).remaining(),
            old(patched).remaining(),
            old(original).position() as int,
        ),
        is_partial_script(
            chunk_views(final(chunks)@),
            final(original)@,
            final(patched)@,
            final(original).position() as int,
            final(patched).position() as int,
        ),
{
    let ghost first = original.remaining();
    let ghost second = patched.remaining();
    let ghost offset = original.position() as int;
    let ghost before = chunk_views(chunks@);
    let ghost (same, delete, insert) = round_lengths(first, second);

    match same_step(original, patched, chunks) {
        Ok(()) => {},
        Err(error) => {
            return Err(error);
        },
    }
    match delete_step(original, patched, chunks) {
        Ok(()) => {},
        Err(error) => {
            return Err(error);
        },
    }
    assert(original.remaining() =~= first.skip(same + delete));
    match insert_step(original, patched, chunks) {
        Ok(()) => {},
        Err(error) => {
            return Err(error);
        },
    }
    proof {
        assert(patched.remaining() =~= second.skip(same + insert));
        let emitted = same_chunk(offset, same) + delete_chunk(offset + same, delete)
            + insert_chunk(offset + same + delete, second.skip(same).take(insert));
        assert(chunk_views(chunks@) =~= before + emitted);
        assert(emitted == round_chunks(first, second, offset));
    }
    Ok(())
}

/// Monotone cursors. No chunk of a round has a negative length, a round
/// stays within both streams, and unless both streams have ended it moves
/// at least one cursor.
pub proof fn lemma_round_advances(original: Seq<u8>, patched: Seq<u8>)
    ensures
        ({
            let (same, delete, insert) = round_lengths(original, patched);
            &&& 0 <= same && 0 <= delete && 0 <= insert
            &&& same + delete <= original.len()
            &&& same + insert <= patched.len()
            &&& original.len() + patched.len() > 0 ==> same + delete + insert > 0
        }),
{
    let (same, delete, insert) = round_lengths(original, patched);
    lemma_common_prefix_length_exists(original, patched);
    lemma_delete_length(original.skip(same), patched.skip(same));
    lemma_insert_length(original.skip(same + delete), patched.skip(same));
    if same == 0 && delete == 0 && insert == 0 {
        assert(original.skip(0) =~= original);
        assert(patched.skip(0) =~= patched);
    }
}

/// Identity: the script from a sequence to itself is one `Same` chunk that
/// spans it, and no chunk at all where the sequence is empty.
pub proof fn lemma_segments_of_equal(bytes: Seq<u8>)
    ensures
        segments(bytes, bytes, 0) == if bytes.len() > 0 {
            seq![ChunkView::Same(0, bytes.len())]
        } else {
            Seq::<ChunkView>::empty()
        },
{
    let nothing = Seq::<u8>::empty();
    let length = bytes.len() as int;
    lemma_common_prefix_length_is(bytes, bytes, length);
    assert(bytes.skip(length) =~= nothing);
    assert(segments(bytes, bytes, 0) =~= round_chunks(bytes, bytes, 0));
    assert(nothing.take(0) =~= nothing);
    assert(round_chunks(bytes, bytes, 0) =~= same_chunk(0, length));
}

/// Empty patched side: the script from a sequence to the empty sequence is
/// one `Delete` chunk that spans the sequence, and no chunk at all where
/// that is empty too.
pub proof fn lemma_segments_to_empty(original: Seq<u8>)
    ensures
        segments(original, Seq::<u8>::empty(), 0) == if original.len() > 0 {
            seq![ChunkView::Delete(0, original.len())]
        } else {
            Seq::<ChunkView>::empty()
        },
{
    let nothing = Seq::<u8>::empty();
    let length = original.len() as int;
    lemma_common_prefix_length_is(original, nothing, 0);
    assert(original.skip(0) =~= original);
    assert(nothing.skip(0) =~= nothing);
    assert(original.skip(length) =~= nothing);
    assert(nothing.take(0) =~= nothing);
    assert(segments(original, nothing, 0) =~= round_chunks(original, nothing, 0));
    assert(round_chunks(original, nothing, 0) =~= delete_chunk(0, length));
}

/// Empty original side: the script from the empty sequence to a sequence is
/// one `Insert` chunk that carries the sequence, and no chunk at all where
/// that is empty too.
pub proof fn lemma_segments_from_empty(patched: Seq<u8>)
    ensures
        segments(Seq::<u8>::empty(), patched, 0) == if patched.len() > 0 {
            seq![ChunkView::Insert(0, patched)]
        } else {
            Seq::<ChunkView>::empty()
        },
{
    let nothing = Seq::<u8>::empty();
    let length = patched.len() as int;
    lemma_common_prefix_length_is(nothing, patched, 0);
    assert(nothing.skip(0) =~= nothing);
    assert(patched.skip(0) =~= patched);
    assert(patched.take(length) =~= patched);
    assert(segments(nothing, patched, 0) =~= round_chunks(nothing, patched, 0));
    assert(round_chunks(nothing, patched, 0) =~= insert_chunk(0, patched));
}

} // verus!
