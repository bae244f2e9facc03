use binary_diff::binary_diff::algorithm::get_delete_chunk::find_closest_reappearance;
use binary_diff::binary_diff::algorithm::longest_common_substring::{
    longest_common_substring, CommonSubstring,
};
use binary_diff::binary_diff::algorithm::{get_delete_chunk, get_insert_chunk, get_same_chunk};
use binary_diff::binary_diff::helper::{
    find, find_byte, get_buffer_length, read_bytes, read_one_byte, seek_to_byte,
};
use binary_diff::binary_diff::chunk_text::stringify_bytes;
use binary_diff::highlight::{deleted_positions, inserted_positions};
use binary_diff::BinaryDiff;
use binary_diff::BinaryDiffChunk::{Delete, Insert, Replace, Same};
use binary_diff::BinaryDiffError;
use binary_diff::ByteReader;
use binary_diff::IoErrorKind;
use std::collections::HashSet;

#[test]
fn find_returns_the_first_position() {
    assert_eq!(find(&[1, 2, 3, 2, 3], &[2, 3]), Some(1));
    assert_eq!(find(&[1, 2, 3], &[3]), Some(2));
    assert_eq!(find(&[1, 2, 3], &[3, 4]), None);
    assert_eq!(find(&[1, 2, 3], &[4]), None);
    assert_eq!(find(&[1, 2], &[1, 2, 3]), None);
}

#[test]
fn find_on_empty_windows() {
    assert_eq!(find(&[], &[1]), None);
    assert_eq!(find(&[], &[]), None);
    assert_eq!(find(&[1, 2], &[]), Some(0));
}

#[test]
fn find_byte_gives_the_length_when_absent() {
    assert_eq!(find_byte(&[5, 6, 7, 6], 6), 1);
    assert_eq!(find_byte(&[5, 6, 7], 8), 3);
    assert_eq!(find_byte(&[], 8), 0);
}

#[test]
fn closest_reappearance_prefers_the_earliest_then_the_leftmost() {
    // 3 reappears at position 1, 4 at position 0: 4 is closer.
    assert_eq!(find_closest_reappearance(&vec![3, 4], &vec![4, 3]), Some(1));
    // Both 3s reappear at position 1: the leftmost wins.
    assert_eq!(find_closest_reappearance(&vec![9, 3, 3], &vec![0, 3]), Some(1));
    assert_eq!(find_closest_reappearance(&vec![1, 2], &vec![3, 4]), None);
    assert_eq!(find_closest_reappearance(&vec![], &vec![3, 4]), None);
    assert_eq!(find_closest_reappearance(&vec![1, 2], &vec![]), None);
}

fn run(first_pos: usize, second_pos: usize, length: usize) -> CommonSubstring {
    CommonSubstring {
        first_pos,
        second_pos,
        length,
    }
}

#[test]
fn longest_common_substring_of_two_windows() {
    assert_eq!(
        longest_common_substring(b"abcdefghijklmnopqrstuvwxyz", b"rstufghijklmnopqvwxyzabcde"),
        run(5, 4, 12)
    );
    assert_eq!(longest_common_substring(&[1, 2, 3], &[9, 2, 3, 1]), run(1, 1, 2));
    assert_eq!(longest_common_substring(&[1, 2, 3], &[1, 2, 3]), run(0, 0, 3));
    assert_eq!(longest_common_substring(&[5], &[4, 5]), run(0, 1, 1));
}

#[test]
fn longest_common_substring_without_a_common_byte() {
    assert_eq!(longest_common_substring(&[1, 2, 3], &[4, 5]), run(0, 0, 0));
    assert_eq!(longest_common_substring(&[1], &[2]), run(0, 0, 0));
}

#[test]
fn longest_common_substring_of_empty_windows() {
    assert_eq!(longest_common_substring(&[], &[1, 2]), run(0, 0, 0));
    assert_eq!(longest_common_substring(&[1, 2], &[]), run(0, 0, 0));
    assert_eq!(longest_common_substring(&[], &[]), run(0, 0, 0));
}

#[test]
fn longest_common_substring_breaks_ties_by_the_first_window() {
    // `1` and `2` are both common; `1` starts earlier in the first window.
    assert_eq!(longest_common_substring(&[1, 2], &[2, 1]), run(0, 1, 1));
    // `7` stands twice in the second window; the earlier place wins.
    assert_eq!(longest_common_substring(&[7], &[0, 7, 7]), run(0, 1, 1));
    // Two runs of two bytes: the one earlier in the first window wins,
    // though it comes later in the second.
    assert_eq!(
        longest_common_substring(&[1, 2, 9, 3, 4], &[3, 4, 8, 1, 2]),
        run(0, 3, 2)
    );
    // A longer run beats an earlier one.
    assert_eq!(
        longest_common_substring(&[1, 9, 3, 4, 5], &[3, 4, 5, 8, 1]),
        run(2, 0, 3)
    );
}

#[test]
fn windowed_read_restores_the_cursor() {
    let mut reader = ByteReader::new(vec![1, 2, 3, 4, 5]);
    assert_eq!(reader.seek(3), Ok(()));
    assert_eq!(reader.read_window(4), vec![4, 5]);
    assert_eq!(reader.read_window(1), vec![4]);
    assert_eq!(reader.read_window(0), Vec::<u8>::new());
    assert_eq!(reader.stream_position(), 3);
    assert_eq!(reader.seek(5), Ok(()));
    assert_eq!(reader.read_window(4), Vec::<u8>::new());
    assert_eq!(reader.len(), 5);
}

#[test]
fn read_bytes_restores_the_cursor() {
    let mut reader = ByteReader::new(vec![1, 2, 3]);
    assert_eq!(read_bytes(&mut reader, 2), Ok(vec![1, 2]));
    assert_eq!(reader.stream_position(), 0);
    assert_eq!(read_bytes(&mut reader, 3), Ok(vec![1, 2, 3]));
    assert_eq!(reader.stream_position(), 0);
    assert_eq!(reader.seek(2), Ok(()));
    assert_eq!(read_bytes(&mut reader, 1), Ok(vec![3]));
    assert_eq!(read_bytes(&mut reader, 0), Ok(vec![]));
    assert_eq!(reader.stream_position(), 2);
}

#[test]
fn a_short_read_fails_and_leaves_the_cursor() {
    let mut reader = ByteReader::new(vec![1, 2, 3]);
    assert_eq!(reader.seek(2), Ok(()));
    assert_eq!(
        read_bytes(&mut reader, 2),
        Err(BinaryDiffError::IoError(IoErrorKind::UnexpectedEof))
    );
    assert_eq!(reader.stream_position(), 2);
    assert_eq!(reader.seek(3), Ok(()));
    assert_eq!(read_bytes(&mut reader, 0), Ok(vec![]));
    assert_eq!(
        read_bytes(&mut reader, 1),
        Err(BinaryDiffError::IoError(IoErrorKind::UnexpectedEof))
    );
}

#[test]
fn single_byte_reads_move_the_cursor() {
    let mut reader = ByteReader::new(vec![1, 2]);
    assert_eq!(read_one_byte(&mut reader), Ok([1]));
    assert_eq!(reader.stream_position(), 1);
    assert_eq!(reader.read_byte(), Ok(2));
    assert_eq!(reader.stream_position(), 2);
    assert_eq!(
        read_one_byte(&mut reader),
        Err(BinaryDiffError::IoError(IoErrorKind::UnexpectedEof))
    );
    assert_eq!(reader.read_byte(), Err(IoErrorKind::UnexpectedEof));
    assert_eq!(reader.stream_position(), 2);
}

#[test]
fn seeks_stay_inside_the_stream() {
    let mut reader = ByteReader::new(vec![1, 2, 3]);
    assert_eq!(reader.seek(3), Ok(()));
    assert_eq!(reader.seek(4), Err(IoErrorKind::InvalidSeek));
    assert_eq!(reader.stream_position(), 3);
    assert_eq!(get_buffer_length(&mut reader), Ok(3));
    assert_eq!(reader.stream_position(), 0);
}

#[test]
fn seek_to_byte_stops_on_the_byte_or_at_the_end() {
    let mut reader = ByteReader::new(vec![1, 2, 3, 2]);
    assert_eq!(seek_to_byte(&mut reader, 2), Ok(1));
    assert_eq!(reader.stream_position(), 1);
    assert_eq!(seek_to_byte(&mut reader, 2), Ok(0));
    assert_eq!(reader.stream_position(), 1);
    assert_eq!(seek_to_byte(&mut reader, 9), Ok(3));
    assert_eq!(reader.stream_position(), 4);
    assert_eq!(seek_to_byte(&mut reader, 9), Ok(0));
}

#[test]
fn same_extractor() {
    let mut old = ByteReader::new(vec![0, 1, 2, 3]);
    let mut new = ByteReader::new(vec![0, 1, 9]);
    assert_eq!(get_same_chunk(&mut old, &mut new), Ok(Some(Same(0, 2))));
    assert_eq!((old.stream_position(), new.stream_position()), (2, 2));
    assert_eq!(get_same_chunk(&mut old, &mut new), Ok(None));
    assert_eq!((old.stream_position(), new.stream_position()), (2, 2));

    let mut old = ByteReader::new(vec![5, 6]);
    let mut new = ByteReader::new(vec![4, 5, 6, 7]);
    assert_eq!(new.seek(1), Ok(()));
    assert_eq!(get_same_chunk(&mut old, &mut new), Ok(Some(Same(0, 2))));
    assert_eq!((old.stream_position(), new.stream_position()), (2, 3));
    assert_eq!(get_same_chunk(&mut old, &mut new), Ok(None));
}

#[test]
fn delete_extractor() {
    // The patched stream has ended: all that is left is deleted.
    let mut old = ByteReader::new(vec![0, 1, 2]);
    let mut new = ByteReader::new(vec![]);
    assert_eq!(get_delete_chunk(&mut old, &mut new), Ok(Some(Delete(0, 3))));
    assert_eq!(old.stream_position(), 3);
    assert_eq!(get_delete_chunk(&mut old, &mut new), Ok(None));

    // The original has ended: nothing to delete.
    let mut old = ByteReader::new(vec![]);
    let mut new = ByteReader::new(vec![1]);
    assert_eq!(get_delete_chunk(&mut old, &mut new), Ok(None));

    // The byte 2 reappears at once.
    let mut old = ByteReader::new(vec![0, 1, 2]);
    let mut new = ByteReader::new(vec![2, 3, 4]);
    assert_eq!(get_delete_chunk(&mut old, &mut new), Ok(Some(Delete(0, 2))));
    assert_eq!((old.stream_position(), new.stream_position()), (2, 0));

    // The next byte of the original reappears in the window: no deletion.
    let mut old = ByteReader::new(vec![3, 9]);
    let mut new = ByteReader::new(vec![2, 3]);
    assert_eq!(get_delete_chunk(&mut old, &mut new), Ok(None));
    assert_eq!((old.stream_position(), new.stream_position()), (0, 0));
}

#[test]
fn insert_extractor() {
    // The original has ended: all that is left is inserted.
    let mut old = ByteReader::new(vec![0]);
    let mut new = ByteReader::new(vec![0, 1, 2]);
    assert_eq!(old.seek(1), Ok(()));
    assert_eq!(new.seek(1), Ok(()));
    assert_eq!(
        get_insert_chunk(&mut old, &mut new),
        Ok(Some(Insert(1, vec![1, 2])))
    );
    assert_eq!(new.stream_position(), 3);
    assert_eq!(get_insert_chunk(&mut old, &mut new), Ok(None));

    // The common run starts both windows: nothing to insert.
    let mut old = ByteReader::new(vec![4, 5]);
    let mut new = ByteReader::new(vec![4, 5, 6]);
    assert_eq!(get_insert_chunk(&mut old, &mut new), Ok(None));

    // The bytes before the common run are inserted.
    let mut old = ByteReader::new(vec![4, 5]);
    let mut new = ByteReader::new(vec![2, 3, 4, 5]);
    assert_eq!(
        get_insert_chunk(&mut old, &mut new),
        Ok(Some(Insert(0, vec![2, 3])))
    );
    assert_eq!((old.stream_position(), new.stream_position()), (0, 2));

    // No common byte: everything up to the end is inserted.
    let mut old = ByteReader::new(vec![4]);
    let mut new = ByteReader::new(vec![2, 3]);
    assert_eq!(
        get_insert_chunk(&mut old, &mut new),
        Ok(Some(Insert(0, vec![2, 3])))
    );
    assert_eq!(new.stream_position(), 2);
}

#[test]
fn chunk_text() {
    assert_eq!(Same(0, 4).to_string(), "Same(offset=0x0, length=0x4)");
    assert_eq!(
        Insert(2, vec![2, 3]).to_string(),
        "Insert(offset=0x2, bytes=[02 03])"
    );
    assert_eq!(
        Insert(2, vec![0x02, 0xfd]).to_string(),
        "Insert(offset=0x2, bytes=[02 fd])"
    );
    assert_eq!(
        Delete(0x1f, 0x100).to_string(),
        "Delete(offset=0x1f, length=0x100)"
    );
    assert_eq!(
        Replace(3, 1, vec![0xfd]).to_string(),
        "Replace(offset=0x3, length=0x1, bytes=[fd])"
    );
    assert_eq!(
        Replace(0xabcdef, 0x10, vec![0x00, 0x0a, 0xa0, 0xff]).to_string(),
        "Replace(offset=0xabcdef, length=0x10, bytes=[00 0a a0 ff])"
    );
    assert_eq!(
        Same(usize::MAX, 16).to_string(),
        format!("Same(offset={:#x}, length={:#x})", usize::MAX, 16)
    );
    for value in [0usize, 9, 10, 15, 16, 255, 256, 4095, 4096, 0x1234_5678] {
        assert_eq!(
            Delete(value, value).to_string(),
            format!("Delete(offset={:#x}, length={:#x})", value, value)
        );
    }
}

#[test]
fn bytes_text() {
    assert_eq!(stringify_bytes(&vec![]), "[]");
    assert_eq!(stringify_bytes(&vec![0]), "[00]");
    assert_eq!(stringify_bytes(&vec![1, 0x2e, 0xff]), "[01 2e ff]");
    let all: Vec<u8> = (0..=255).collect();
    let expected = format!(
        "[{}]",
        all.iter()
            .map(|v| format!("{:02x}", v))
            .collect::<Vec<String>>()
            .join(" ")
    );
    assert_eq!(stringify_bytes(&all), expected);
}

fn positions(listed: &[usize]) -> HashSet<usize> {
    listed.iter().copied().collect()
}

#[test]
fn deleted_positions_of_the_original() {
    let diff = BinaryDiff::from(&vec![Same(0, 4), Delete(4, 2), Same(6, 2)]);
    assert_eq!(deleted_positions(&diff), positions(&[4, 5]));
    let several = BinaryDiff::from(&vec![Delete(0, 1), Same(1, 1), Delete(2, 3)]);
    assert_eq!(deleted_positions(&several), positions(&[0, 2, 3, 4]));
    // A Replace is no Delete, and a range ends with the last machine index.
    let replaced = BinaryDiff::from(&vec![Replace(0, 2, vec![1]), Delete(usize::MAX, 2)]);
    assert_eq!(deleted_positions(&replaced), positions(&[usize::MAX]));
    assert_eq!(deleted_positions(&BinaryDiff::from(&vec![])), positions(&[]));
}

#[test]
fn inserted_positions_of_the_patched_output() {
    let diff = BinaryDiff::from(&vec![
        Same(0, 1),
        Insert(1, vec![7, 8]),
        Same(1, 1),
        Replace(2, 1, vec![9]),
        Delete(3, 4),
    ]);
    assert_eq!(inserted_positions(&diff), positions(&[1, 2, 4]));
    let only_same = BinaryDiff::from(&vec![Same(0, 9)]);
    assert_eq!(inserted_positions(&only_same), positions(&[]));
    // Behind output that reaches past the last machine index nothing can
    // be marked.
    let beyond = BinaryDiff::from(&vec![
        Insert(0, vec![1]),
        Same(0, usize::MAX),
        Insert(usize::MAX, vec![2]),
    ]);
    assert_eq!(inserted_positions(&beyond), positions(&[0]));
}
