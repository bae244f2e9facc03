use vstd::prelude::*;

verus! {

/// Why a read or a seek on a `ByteReader` failed.
#[derive(Debug, Clone, Copy, PartialEq, Eq, Structural)]
pub enum IoErrorKind {
    /// Fewer bytes were left than the read asked for.
    UnexpectedEof,
    /// The target of the seek lies outside the stream.
    InvalidSeek,
}

/// A seekable stream of bytes held in memory: the bytes, and a cursor that
/// never leaves them.
#[derive(Debug)]
pub struct ByteReader {
    bytes: Vec<u8>,
    position: usize,
}

impl View for ByteReader {
    type V = Seq<u8>;

    /// Everything the stream holds, from its first byte on.
    closed spec fn view(&self) -> Seq<u8> {
        self.bytes@
    }
}

impl ByteReader {
    /// The cursor stands within the stream or at its end.
    #[verifier::type_invariant]
    spec fn cursor_in_bounds(&self) -> bool {
        self.position <= self.bytes@.len()
    }

    /// The cursor: the index of the next byte to be read.
    pub closed spec fn position(&self) -> nat {
        self.position as nat
    }

    /// The bytes from the cursor to the end of the stream.
    pub open spec fn remaining(&self) -> Seq<u8> {
        self@.skip(self.position() as int)
    }

    /// A stream over `bytes` with the cursor at its start.
    pub fn new(bytes: Vec<u8>) -> (reader: Self)
        ensures
            reader@ == bytes@,
            reader.position() == 0,
    {
        ByteReader { bytes, position: 0 }
    }

    /// Total number of bytes in the stream.
    pub fn len(&self) -> (length: usize)
        ensures
            length == self@.len(),
    {
        self.bytes.len()
    }

    /// The cursor, which never stands beyond the end of the stream.
    pub fn stream_position(&self) -> (position: usize)
        ensures
            position == self.position(),
            position <= self@.len(),
    {
        proof {
            use_type_invariant(self);
        }
        self.position
    }

    /// Moves the cursor to `position`, which may be the end of the stream but
    /// nothing beyond it. A refused seek leaves the cursor where it was.
    pub fn seek(&mut self, position: usize) -> (result: Result<(), IoErrorKind>)
        ensures
            final(self)@ == old(self)@,
            position <= old(self)@.len() ==> result is Ok && final(self).position() == position,
            position > old(self)@.len() ==> result == Err::<(), IoErrorKind>(
                IoErrorKind::InvalidSeek,
            ) && final(self).position() == old(self).position(),
    {
        if position <= self.bytes.len() {
            self.position = position;
            Ok(())
        } else {
            Err(IoErrorKind::InvalidSeek)
        }
    }

    /// Copies the next `min(width, bytes left)` bytes without moving the
    /// cursor.
    pub fn read_window(&self, width: usize) -> (window: Vec<u8>)
        ensures
            window@ == self.remaining().take(
                vstd::math::min(width as int, self.remaining().len() as int),
            ),
    {
        proof {
            use_type_invariant(self);
        }
        let start = self.position;
        let left = self.bytes.len() - start;
        let count = if width < left { width } else { left };
        let mut window: Vec<u8> = Vec::new();
        let mut i: usize = 0;
        while i < count
            invariant
                i <= count,
                start + count <= self.bytes.len(),
                window@ == self.bytes@.subrange(start as int, start + i),
            decreases count - i,
        {
            window.push(self.bytes[start + i]);
            i += 1;
        }
        window
    }

    /// Reads the byte under the cursor and moves the cursor past it. At the
    /// end of the stream the read fails and the cursor stays.
    pub fn read_byte(&mut self) -> (result: Result<u8, IoErrorKind>)
        ensures
            final(self)@ == old(self)@,
            old(self).position() < old(self)@.len() ==> result == Ok::<u8, IoErrorKind>(
                old(self)@[old(self).position() as int],
            ) && final(self).position() == old(self).position() + 1,
            old(self).position() >= old(self)@.len() ==> result == Err::<u8, IoErrorKind>(
                IoErrorKind::UnexpectedEof,
            ) && final(self).position() == old(self).position(),
    {
        proof {
            use_type_invariant(&*self);
        }
        if self.position < self.bytes.len() {
            let byte = self.bytes[self.position];
            self.position = self.position + 1;
            Ok(byte)
        } else {
            Err(IoErrorKind::UnexpectedEof)
        }
    }
}

} // verus!
