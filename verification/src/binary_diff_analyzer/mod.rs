pub mod agreement;
pub mod derives_from;
pub mod error;

use crate::binary_diff::binary_diff_chunk::BinaryDiffChunk;
use crate::binary_diff::binary_diff_chunk::ChunkView;
use crate::binary_diff::edit_script::chunk_views;
use crate::binary_diff::edit_script::patched_length;
use crate::binary_diff::BinaryDiff;
use crate::binary_diff_analyzer::derives_from::DerivesFrom;
use crate::binary_diff_analyzer::error::BinaryDiffAnalyzerError;
use crate::byte_reader::ByteReader;
use crate::byte_reader::IoErrorKind;
use vstd::prelude::*;

verus! {

/// The chunk at `index` produces the byte at `offset` of the patched
/// output: the chunks before it produce `offset` bytes or fewer, and
/// together with it they produce more.
pub open spec fn is_producer(chunks: Seq<ChunkView>, offset: int, index: int) -> bool {
    &&& 0 <= index < chunks.len()
    &&& patched_length(chunks.take(index)) <= offset < patched_length(chunks.take(index + 1))
}

/// The index of the chunk that produces the byte at `offset` of the patched
/// output, if the output reaches that far.
pub open spec fn producer(chunks: Seq<ChunkView>, offset: int) -> Option<int> {
    if exists|index: int| is_producer(chunks, offset, index) {
        Some(choose|index: int| is_producer(chunks, offset, index))
    } else {
        None
    }
}

/// The chunk can have produced `value` as the byte at position `relative`
/// of its output. A `Same` chunk always can, since its bytes are those of
/// the original; an `Insert` or `Replace` chunk can if it carries `value`
/// at that position; a `Delete` chunk produces nothing.
pub open spec fn confirms(chunk: ChunkView, relative: int, value: u8) -> bool {
    match chunk {
        ChunkView::Same(_, length) => 0 <= relative < length,
        ChunkView::Insert(_, bytes) => 0 <= relative < bytes.len() && bytes[relative] == value,
        ChunkView::Replace(_, _, bytes) => 0 <= relative < bytes.len() && bytes[relative]
            == value,
        ChunkView::Delete(_, _) => false,
    }
}

/// Where the byte `value` at `offset` of the patched output derives from:
/// the index of the chunk that produces that offset and the byte's position
/// within the chunk's output, provided the chunk confirms the value.
/// `None` where the output does not reach `offset` or the chunk that
/// produces it carries another byte there.
pub open spec fn derivation(chunks: Seq<ChunkView>, offset: int, value: u8) -> Option<(int, int)> {
    match producer(chunks, offset) {
        Some(index) => {
            let relative = offset - patched_length(chunks.take(index));
            if confirms(chunks[index], relative, value) {
                Some((index, relative))
            } else {
                None
            }
        },
        None => None,
    }
}

/// The output of a longer prefix of a script is no shorter.
pub proof fn lemma_patched_length_rises(chunks: Seq<ChunkView>, shorter: int, longer: int)
    requires
        0 <= shorter <= longer <= chunks.len(),
    ensures
        patched_length(chunks.take(shorter)) <= patched_length(chunks.take(longer)),
    decreases longer - shorter,
{
    if shorter < longer {
        lemma_patched_length_rises(chunks, shorter, longer - 1);
        assert(chunks.take(longer).drop_last() =~= chunks.take(longer - 1));
    }
}

/// An index that qualifies as the producer of an offset is the one that
/// `producer` names.
pub proof fn lemma_producer_is(chunks: Seq<ChunkView>, offset: int, index: int)
    requires
        is_producer(chunks, offset, index),
    ensures
        producer(chunks, offset) == Some(index),
{
    let chosen = choose|index: int| is_producer(chunks, offset, index);
    if chosen < index {
        lemma_patched_length_rises(chunks, chosen + 1, index);
    }
    if index < chosen {
        lemma_patched_length_rises(chunks, index + 1, chosen);
    }
}

/// No chunk produces an offset that the whole output does not reach.
pub proof fn lemma_no_producer_beyond(chunks: Seq<ChunkView>, offset: int)
    requires
        offset >= patched_length(chunks),
    ensures
        producer(chunks, offset) is None,
{
    assert forall|index: int| !is_producer(chunks, offset, index) by {
        if 0 <= index < chunks.len() {
            lemma_patched_length_rises(chunks, index + 1, chunks.len() as int);
            assert(chunks.take(chunks.len() as int) =~= chunks);
        }
    }
}

/// Attributes the byte `value`, found at `new_offset` of the patched
/// output, to the chunk of `diff` that produces that offset.
pub fn _derives_from<'a>(diff: &'a BinaryDiff, new_offset: usize, value: u8) -> (derived: Option<
    DerivesFrom<'a>,
>)
    ensures
        match derivation(diff@, new_offset as int, value) {
            Some((index, relative)) => {
                &&& derived matches Some(found)
                &&& found.chunk@ == diff@[index]
                &&& found.patched_position == new_offset
                &&& found.relative_position == relative
                &&& found.relative_position < found.chunk@.patched_length()
            },
            None => derived is None,
        },
{
    let chunks = diff.chunks();
    let ghost views = diff@;
    let mut applied_new_offset: usize = 0;
    let mut i: usize = 0;
    assert(views.take(0) =~= Seq::<ChunkView>::empty());
    while i < chunks.len()
        invariant
            views == diff@,
            views == chunk_views(chunks@),
            i <= chunks@.len(),
            applied_new_offset == patched_length(views.take(i as int)),
            applied_new_offset <= new_offset,
        decreases chunks@.len() - i,
    {
        let chunk = &chunks[i];
        let produced = chunk.patched_length();
        let relative = new_offset - applied_new_offset;
        proof {
            assert(views.take(i + 1).drop_last() =~= views.take(i as int));
            assert(views.take(i + 1).last() == chunk@);
        }
        if relative < produced {
            proof {
                lemma_producer_is(views, new_offset as int, i as int);
            }
            let confirmed = match chunk {
                BinaryDiffChunk::Same(_, _) => true,
                BinaryDiffChunk::Insert(_, bytes) => value == bytes[relative],
                BinaryDiffChunk::Replace(_, _, bytes) => value == bytes[relative],
                BinaryDiffChunk::Delete(_, _) => false,
            };
            return if confirmed {
                Some(
                    DerivesFrom {
                        patched_position: new_offset,
                        relative_position: relative,
                        chunk,
                    },
                )
            } else {
                None
            };
        }
        applied_new_offset = applied_new_offset + produced;
        i += 1;
    }
    proof {
        assert(views.take(i as int) =~= views);
        lemma_no_producer_beyond(views, new_offset as int);
    }
    None
}

/// Answers, for a diff and the patched stream it leads to, which chunk a
/// byte of that stream derives from.
pub struct BinaryDiffAnalyzer<'a> {
    diff: &'a BinaryDiff,
    patched: ByteReader,
}

impl<'a> BinaryDiffAnalyzer<'a> {
    /// The diff under analysis.
    pub closed spec fn diff(&self) -> &'a BinaryDiff {
        self.diff
    }

    /// The patched stream under analysis.
    pub closed spec fn patched(&self) -> ByteReader {
        self.patched
    }

    /// An analyzer of `diff` over the patched stream that it leads to.
    pub fn new(diff: &'a BinaryDiff, patched: ByteReader) -> (analyzer: Self)
        ensures
            analyzer.diff() == diff,
            analyzer.patched() == patched,
    {
        BinaryDiffAnalyzer { diff, patched }
    }

    /// Reads the byte at `offset` of the patched stream and attributes it
    /// to the chunk that produces that offset. Fails where the stream has
    /// no byte at `offset`: with `UnexpectedEof` at its very end, with
    /// `InvalidSeek` beyond it. The cursor of the stream is left behind the
    /// byte read, or where it was when the read fails.
    pub fn derives_from(&mut self, offset: usize) -> (result: Result<
        Option<DerivesFrom<'a>>,
        BinaryDiffAnalyzerError,
    >)
        ensures
            final(self).diff() == old(self).diff(),
            final(self).patched()@ == old(self).patched()@,
            match result {
                Ok(derived) => {
                    &&& offset < old(self).patched()@.len()
                    &&& final(self).patched().position() == offset + 1
                    &&& match derivation(
                        old(self).diff()@,
                        offset as int,
                        old(self).patched()@[offset as int],
                    ) {
                        Some((index, relative)) => {
                            &&& derived matches Some(found)
                            &&& found.chunk@ == old(self).diff()@[index]
                            &&& found.patched_position == offset
                            &&& found.relative_position == relative
                            &&& found.relative_position < found.chunk@.patched_length()
                        },
                        None => derived is None,
                    }
                },
                Err(error) => {
                    &&& offset >= old(self).patched()@.len()
                    &&& error == BinaryDiffAnalyzerError::IoError(
                        if offset > old(self).patched()@.len() {
                            IoErrorKind::InvalidSeek
                        } else {
                            IoErrorKind::UnexpectedEof
                        },
                    )
                    &&& final(self).patched().position() == old(self).patched().position()
                },
            },
    {
        let before = self.patched.stream_position();
        match self.patched.seek(offset) {
            Ok(()) => {},
            Err(kind) => {
                return Err(BinaryDiffAnalyzerError::IoError(kind));
            },
        }
        let value = match self.patched.read_byte() {
            Ok(value) => value,
            Err(kind) => {
                match self.patched.seek(before) {
                    Ok(()) => {},
                    Err(_) => {},
                }
                return Err(BinaryDiffAnalyzerError::IoError(kind));
            },
        };
        Ok(_derives_from(self.diff, offset, value))
    }
}

} // verus!
