use crate::binary_diff::binary_diff_chunk::BinaryDiffChunk;
use crate::binary_diff::binary_diff_chunk::ChunkView;
use vstd::prelude::*;

verus! {

/// The lower-case hexadecimal digit for a value below 16.
pub open spec fn hex_digit(value: int) -> char {
    if value == 0 {
        '0'
    } else if value == 1 {
        '1'
    } else if value == 2 {
        '2'
    } else if value == 3 {
        '3'
    } else if value == 4 {
        '4'
    } else if value == 5 {
        '5'
    } else if value == 6 {
        '6'
    } else if value == 7 {
        '7'
    } else if value == 8 {
        '8'
    } else if value == 9 {
        '9'
    } else if value == 10 {
        'a'
    } else if value == 11 {
        'b'
    } else if value == 12 {
        'c'
    } else if value == 13 {
        'd'
    } else if value == 14 {
        'e'
    } else {
        'f'
    }
}

/// The hexadecimal digits of a number, most significant first, without
/// leading zeros; the single digit `0` for zero.
pub open spec fn hex_digits(value: nat) -> Seq<char>
    decreases value,
{
    if value < 16 {
        seq![hex_digit(value as int)]
    } else {
        hex_digits(value / 16).push(hex_digit((value % 16) as int))
    }
}

/// A number in hexadecimal behind the prefix `0x`.
pub open spec fn prefixed_hex(value: nat) -> Seq<char> {
    "0x"@ + hex_digits(value)
}

/// A byte as two hexadecimal digits.
pub open spec fn byte_text(byte: u8) -> Seq<char> {
    seq![hex_digit(byte as int / 16), hex_digit(byte as int % 16)]
}

/// The bytes as two digits each, with one space between neighbours.
pub open spec fn joined_bytes(bytes: Seq<u8>) -> Seq<char>
    decreases bytes.len(),
{
    if bytes.len() == 0 {
        Seq::empty()
    } else if bytes.len() == 1 {
        byte_text(bytes[0])
    } else {
        joined_bytes(bytes.drop_last()) + " "@ + byte_text(bytes.last())
    }
}

/// The bytes in square brackets, as two digits each, one space apart.
pub open spec fn bytes_text(bytes: Seq<u8>) -> Seq<char> {
    "["@ + joined_bytes(bytes) + "]"@
}

impl ChunkView {
    /// The chunk in readable form: its kind and, in round brackets right
    /// behind it, its fields by name, numbers in hexadecimal.
    pub open spec fn text(self) -> Seq<char> {
        match self {
            ChunkView::Same(offset, length) => "Same(offset="@ + prefixed_hex(offset)
                + ", length="@ + prefixed_hex(length) + ")"@,
            ChunkView::Insert(offset, bytes) => "Insert(offset="@ + prefixed_hex(offset)
                + ", bytes="@ + bytes_text(bytes) + ")"@,
            ChunkView::Delete(offset, length) => "Delete(offset="@ + prefixed_hex(offset)
                + ", length="@ + prefixed_hex(length) + ")"@,
            ChunkView::Replace(offset, length, bytes) => "Replace(offset="@ + prefixed_hex(offset)
                + ", length="@ + prefixed_hex(length) + ", bytes="@ + bytes_text(bytes) + ")"@,
        }
    }
}

/// The digit for a value below 16, as a string of one character.
fn hex_digit_of(value: u8) -> (digit: &'static str)
    requires
        value < 16,
    ensures
        digit@ == seq![hex_digit(value as int)],
{
    proof {
        reveal_strlit("0");
        reveal_strlit("1");
        reveal_strlit("2");
        reveal_strlit("3");
        reveal_strlit("4");
        reveal_strlit("5");
        reveal_strlit("6");
        reveal_strlit("7");
        reveal_strlit("8");
        reveal_strlit("9");
        reveal_strlit("a");
        reveal_strlit("b");
        reveal_strlit("c");
        reveal_strlit("d");
        reveal_strlit("e");
        reveal_strlit("f");
    }
    let digit = if value == 0 {
        "0"
    } else if value == 1 {
        "1"
    } else if value == 2 {
        "2"
    } else if value == 3 {
        "3"
    } else if value == 4 {
        "4"
    } else if value == 5 {
        "5"
    } else if value == 6 {
        "6"
    } else if value == 7 {
        "7"
    } else if value == 8 {
        "8"
    } else if value == 9 {
        "9"
    } else if value == 10 {
        "a"
    } else if value == 11 {
        "b"
    } else if value == 12 {
        "c"
    } else if value == 13 {
        "d"
    } else if value == 14 {
        "e"
    } else {
        "f"
    };
    assert(digit@ =~= seq![hex_digit(value as int)]);
    digit
}

/// Appends the hexadecimal digits of `value`.
fn append_hex_digits(text: &mut String, value: usize)
    ensures
        final(text)@ == old(text)@ + hex_digits(value as nat),
    decreases value,
{
    if value >= 16 {
        append_hex_digits(text, value / 16);
    }
    let digit = hex_digit_of((value % 16) as u8);
    text.append(digit);
    proof {
        let before = old(text)@;
        if value >= 16 {
            assert((before + hex_digits(value as nat / 16)) + digit@ =~= before + hex_digits(
                value as nat,
            ));
        }
    }
}

/// Appends `value` in hexadecimal behind `0x`.
fn append_prefixed_hex(text: &mut String, value: usize)
    ensures
        final(text)@ == old(text)@ + prefixed_hex(value as nat),
{
    text.append("0x");
    append_hex_digits(text, value);
    assert((old(text)@ + "0x"@) + hex_digits(value as nat) =~= old(text)@ + prefixed_hex(
        value as nat,
    ));
}

/// Appends the two hexadecimal digits of `byte`.
fn append_byte(text: &mut String, byte: u8)
    ensures
        final(text)@ == old(text)@ + byte_text(byte),
{
    let high = hex_digit_of(byte / 16);
    let low = hex_digit_of(byte % 16);
    text.append(high);
    text.append(low);
    assert((old(text)@ + high@) + low@ =~= old(text)@ + byte_text(byte));
}

/// The bytes in square brackets, each as two hexadecimal digits, with one
/// space between neighbours.
pub fn stringify_bytes(bytes: &Vec<u8>) -> (text: String)
    ensures
        text@ == bytes_text(bytes@),
{
    let mut text = String::new();
    text.append("[");
    let mut i: usize = 0;
    assert(bytes@.take(0) =~= Seq::<u8>::empty());
    assert(text@ =~= "["@ + joined_bytes(bytes@.take(0)));
    while i < bytes.len()
        invariant
            i <= bytes@.len(),
            text@ == "["@ + joined_bytes(bytes@.take(i as int)),
        decreases bytes@.len() - i,
    {
        let ghost before = text@;
        let ghost taken = bytes@.take(i as int);
        let ghost next = bytes@.take(i + 1);
        proof {
            assert(next.drop_last() =~= taken);
            assert(next.last() == bytes@[i as int]);
        }
        if i > 0 {
            text.append(" ");
        }
        append_byte(&mut text, bytes[i]);
        proof {
            if i > 0 {
                assert(("["@ + joined_bytes(taken) + " "@) + byte_text(bytes@[i as int]) =~= "["@
                    + joined_bytes(next));
            } else {
                assert(next[0] == bytes@[0]);
                assert("["@ + joined_bytes(taken) + byte_text(bytes@[0]) =~= "["@ + joined_bytes(
                    next,
                ));
            }
        }
        i += 1;
    }
    assert(bytes@.take(i as int) =~= bytes@);
    text.append("]");
    text
}

impl BinaryDiffChunk {
    /// The chunk in readable form, such as `Same(offset=0x0, length=0x4)`
    /// or `Insert(offset=0x2, bytes=[02 03])`.
    pub fn to_string(&self) -> (text: String)
        ensures
            text@ == self@.text(),
    {
        let mut text = String::new();
        match self {
            BinaryDiffChunk::Same(offset, length) => {
                text.append("Same(offset=");
                append_prefixed_hex(&mut text, *offset);
                text.append(", length=");
                append_prefixed_hex(&mut text, *length);
                text.append(")");
                assert(text@ =~= self@.text());
            },
            BinaryDiffChunk::Insert(offset, bytes) => {
                text.append("Insert(offset=");
                append_prefixed_hex(&mut text, *offset);
                text.append(", bytes=");
                let listed = stringify_bytes(bytes);
                text.append(listed.as_str());
                text.append(")");
                assert(text@ =~= self@.text());
            },
            BinaryDiffChunk::Delete(offset, length) => {
                text.append("Delete(offset=");
                append_prefixed_hex(&mut text, *offset);
                text.append(", length=");
                append_prefixed_hex(&mut text, *length);
                text.append(")");
                assert(text@ =~= self@.text());
            },
            BinaryDiffChunk::Replace(offset, length, bytes) => {
                text.append("Replace(offset=");
                append_prefixed_hex(&mut text, *offset);
                text.append(", length=");
                append_prefixed_hex(&mut text, *length);
                text.append(", bytes=");
                let listed = stringify_bytes(bytes);
                text.append(listed.as_str());
                text.append(")");
                assert(text@ =~= self@.text());
            },
        }
        text
    }
}

} // verus!
