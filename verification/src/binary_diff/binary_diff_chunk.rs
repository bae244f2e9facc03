use std::cmp::Ordering;
use vstd::prelude::*;

verus! {

/// Mathematical value of a chunk: offsets and lengths as naturals, payloads
/// as sequences of bytes.
pub enum ChunkView {
    Same(nat, nat),
    Insert(nat, Seq<u8>),
    Delete(nat, nat),
    Replace(nat, nat, Seq<u8>),
}

impl ChunkView {
    /// Position in the original at which the chunk applies.
    pub open spec fn offset(self) -> nat {
        match self {
            ChunkView::Same(offset, _) => offset,
            ChunkView::Insert(offset, _) => offset,
            ChunkView::Delete(offset, _) => offset,
            ChunkView::Replace(offset, _, _) => offset,
        }
    }

    /// Number of bytes the chunk consumes from the original.
    pub open spec fn source_length(self) -> nat {
        match self {
            ChunkView::Same(_, length) => length,
            ChunkView::Insert(_, _) => 0,
            ChunkView::Delete(_, length) => length,
            ChunkView::Replace(_, length, _) => length,
        }
    }

    /// Number of bytes the chunk contributes to the patched output.
    pub open spec fn patched_length(self) -> nat {
        match self {
            ChunkView::Same(_, length) => length,
            ChunkView::Insert(_, bytes) => bytes.len(),
            ChunkView::Delete(_, _) => 0,
            ChunkView::Replace(_, _, bytes) => bytes.len(),
        }
    }

    /// The name of the chunk's kind.
    pub open spec fn name(self) -> Seq<char> {
        match self {
            ChunkView::Same(_, _) => "Same"@,
            ChunkView::Insert(_, _) => "Insert"@,
            ChunkView::Delete(_, _) => "Delete"@,
            ChunkView::Replace(_, _, _) => "Replace"@,
        }
    }

    /// The chunk sorts strictly before `other`: it applies at a smaller
    /// offset, or at the same offset where `other` is a `Same` chunk and
    /// the chunk itself is not.
    pub open spec fn precedes(self, other: ChunkView) -> bool {
        self.offset() < other.offset() || (self.offset() == other.offset() && !(self is Same)
            && other is Same)
    }

    /// Lengths are positive and payloads are non-empty.
    pub open spec fn well_formed(self) -> bool {
        match self {
            ChunkView::Same(_, length) => length >= 1,
            ChunkView::Insert(_, bytes) => bytes.len() >= 1,
            ChunkView::Delete(_, length) => length >= 1,
            ChunkView::Replace(_, length, bytes) => length >= 1 && bytes.len() >= 1,
        }
    }
}

/// One entry of an edit script.
#[derive(Debug, Eq, PartialEq)]
pub enum BinaryDiffChunk {
    Same(usize, usize),
    Insert(usize, Vec<u8>),
    Delete(usize, usize),
    Replace(usize, usize, Vec<u8>),
}

impl View for BinaryDiffChunk {
    type V = ChunkView;

    open spec fn view(&self) -> ChunkView {
        match self {
            BinaryDiffChunk::Same(offset, length) => ChunkView::Same(
                *offset as nat,
                *length as nat,
            ),
            BinaryDiffChunk::Insert(offset, bytes) => ChunkView::Insert(*offset as nat, bytes@),
            BinaryDiffChunk::Delete(offset, length) => ChunkView::Delete(
                *offset as nat,
                *length as nat,
            ),
            BinaryDiffChunk::Replace(offset, length, bytes) => ChunkView::Replace(
                *offset as nat,
                *length as nat,
                bytes@,
            ),
        }
    }
}

impl Clone for BinaryDiffChunk {
    /// A copy with the same value.
    fn clone(&self) -> (copy: Self)
        ensures
            copy@ == self@,
    {
        match self {
            BinaryDiffChunk::Same(offset, length) => BinaryDiffChunk::Same(*offset, *length),
            BinaryDiffChunk::Insert(offset, bytes) => {
                let copied = bytes.clone();
                assert(copied@ =~= bytes@);
                BinaryDiffChunk::Insert(*offset, copied)
            },
            BinaryDiffChunk::Delete(offset, length) => BinaryDiffChunk::Delete(*offset, *length),
            BinaryDiffChunk::Replace(offset, length, bytes) => {
                let copied = bytes.clone();
                assert(copied@ =~= bytes@);
                BinaryDiffChunk::Replace(*offset, *length, copied)
            },
        }
    }
}

impl BinaryDiffChunk {
    /// The position in the original at which the chunk applies.
    pub fn offset(&self) -> (offset: &usize)
        ensures
            *offset == self@.offset(),
    {
        match self {
            BinaryDiffChunk::Same(offset, _) => offset,
            BinaryDiffChunk::Insert(offset, _) => offset,
            BinaryDiffChunk::Delete(offset, _) => offset,
            BinaryDiffChunk::Replace(offset, _, _) => offset,
        }
    }

    /// How many bytes of the original the chunk consumes: none for an
    /// `Insert`, the stated length for every other chunk.
    pub fn length(&self) -> (length: usize)
        ensures
            length == self@.source_length(),
    {
        match self {
            BinaryDiffChunk::Same(_, length) => *length,
            BinaryDiffChunk::Insert(_, _) => 0,
            BinaryDiffChunk::Delete(_, length) => *length,
            BinaryDiffChunk::Replace(_, length, _) => *length,
        }
    }

    /// How many bytes the chunk introduces into the patched output.
    pub fn patched_length(&self) -> (length: usize)
        ensures
            length == self@.patched_length(),
    {
        match self {
            BinaryDiffChunk::Same(_, length) => *length,
            BinaryDiffChunk::Insert(_, bytes) => bytes.len(),
            BinaryDiffChunk::Delete(_, _) => 0,
            BinaryDiffChunk::Replace(_, _, bytes) => bytes.len(),
        }
    }

    /// The name of the chunk's kind.
    pub fn name(&self) -> (name: &'static str)
        ensures
            name@ == self@.name(),
    {
        match self {
            BinaryDiffChunk::Same(_, _) => "Same",
            BinaryDiffChunk::Delete(_, _) => "Delete",
            BinaryDiffChunk::Insert(_, _) => "Insert",
            BinaryDiffChunk::Replace(_, _, _) => "Replace",
        }
    }

    /// Whether the chunk sorts strictly before `other`, which is what `<`
    /// computes.
    pub fn precedes(&self, other: &Self) -> (precedes: bool)
        ensures
            precedes == self@.precedes(other@),
    {
        let offset = *self.offset();
        let other_offset = *other.offset();
        let same = match self {
            BinaryDiffChunk::Same(_, _) => true,
            _ => false,
        };
        let other_same = match other {
            BinaryDiffChunk::Same(_, _) => true,
            _ => false,
        };
        offset < other_offset || (offset == other_offset && !same && other_same)
    }

    /// Where the chunk stops in the original: its offset plus the number
    /// of bytes it consumes. The sum must be a machine index.
    pub fn end(&self) -> (end: usize)
        requires
            self@.offset() + self@.source_length() <= usize::MAX,
        ensures
            end == self@.offset() + self@.source_length(),
    {
        *self.offset() + self.length()
    }
}

/// How two chunks compare: by offset, and at equal offsets a `Same` chunk
/// comes after every chunk, another `Same` chunk included, while chunks of
/// the other kinds tie.
pub open spec fn chunk_order(left: ChunkView, right: ChunkView) -> Ordering {
    if left.offset() < right.offset() {
        Ordering::Less
    } else if left.offset() > right.offset() {
        Ordering::Greater
    } else if left is Same {
        Ordering::Greater
    } else if right is Same {
        Ordering::Less
    } else {
        Ordering::Equal
    }
}

/// `chunk_order` says `Less` exactly where the left chunk precedes the
/// right one.
pub proof fn lemma_chunk_order_less(left: ChunkView, right: ChunkView)
    ensures
        chunk_order(left, right) == Ordering::Less <==> left.precedes(right),
{
}

impl BinaryDiffChunk {
    /// How the chunk compares with `other`: by offset, and at equal offsets
    /// a `Same` chunk comes after every chunk.
    pub fn cmp(&self, other: &Self) -> (order: Ordering)
        ensures
            order == chunk_order(self@, other@),
    {
        let offset = *self.offset();
        let other_offset = *other.offset();
        if offset < other_offset {
            Ordering::Less
        } else if offset > other_offset {
            Ordering::Greater
        } else {
            match (self, other) {
                (BinaryDiffChunk::Same(_, _), _) => Ordering::Greater,
                (_, BinaryDiffChunk::Same(_, _)) => Ordering::Less,
                _ => Ordering::Equal,
            }
        }
    }
}

impl PartialOrd for BinaryDiffChunk {
    /// Compares by `chunk_order`; the answer is never `None`.
    fn partial_cmp(&self, other: &Self) -> (order: Option<Ordering>) {
        Some(self.cmp(other))
    }
}

impl vstd::std_specs::cmp::PartialOrdSpecImpl for BinaryDiffChunk {
    open spec fn obeys_partial_cmp_spec() -> bool {
        true
    }

    open spec fn partial_cmp_spec(&self, other: &Self) -> Option<Ordering> {
        Some(chunk_order(self@, other@))
    }
}

} // verus!
