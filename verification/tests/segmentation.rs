use binary_diff::binary_diff::helper::get_buffer_length;
use binary_diff::BinaryDiff;
use binary_diff::BinaryDiffChunk::{Delete, Insert, Same};
use binary_diff::BinaryDiffError;
use binary_diff::ByteReader;

fn binary_diff_wrapper(old: &Vec<u8>, new: &Vec<u8>) -> Result<BinaryDiff, BinaryDiffError> {
    BinaryDiff::new(
        &mut ByteReader::new(old.clone()),
        &mut ByteReader::new(new.clone()),
    )
}

#[test]
fn test_chunks_same() {
    let old = vec![0, 1, 2, 3];
    let new = vec![0, 1, 2, 3];
    let diff_chunks = binary_diff_wrapper(&old, &new);
    assert!(diff_chunks.is_ok());
    if let Ok(diff_chunks) = diff_chunks {
        assert_eq!(diff_chunks, BinaryDiff::from(&vec![Same(0, 4)]));
    }
}

#[test]
fn test_chunks_same_delete() {
    let old = vec![0, 1, 2, 3];
    let new = vec![0, 1];
    let diff_chunks = binary_diff_wrapper(&old, &new);
    assert!(diff_chunks.is_ok());
    if let Ok(diff_chunks) = diff_chunks {
        assert_eq!(
            diff_chunks,
            BinaryDiff::from(&vec![Same(0, 2), Delete(2, 2)])
        );
    }
}

#[test]
fn test_chunks_same_insert() {
    let old = vec![0, 1];
    let new = vec![0, 1, 2, 3];
    let diff_chunks = binary_diff_wrapper(&old, &new);
    assert!(diff_chunks.is_ok());
    if let Ok(diff_chunks) = diff_chunks {
        assert_eq!(
            diff_chunks,
            BinaryDiff::from(&vec![Same(0, 2), Insert(2, new[2..=3].to_vec())])
        );
    }
}

#[test]
fn test_chunks_same_insert_same() {
    let old = vec![0x00, 0x0b, 0x01, 0x00, 0x03, 0xfe, 0x00, 0x03];
    let new = vec![0x00, 0x0b, 0x01, 0xfd, 0x03, 0xfe, 0x00, 0x03];
    let diff_chunks = binary_diff_wrapper(&old, &new);
    assert!(diff_chunks.is_ok());
    if let Ok(diff_chunks) = diff_chunks {
        assert_eq!(
            diff_chunks,
            BinaryDiff::from(&vec![
                Same(0, 3),
                Delete(3, 1),
                Insert(4, new[3..=3].to_vec()),
                Same(4, 4)
            ])
        );
    }
}

#[test]
fn test_chunks_delete() {
    let old = vec![0, 1];
    let new = vec![];
    let diff_chunks = binary_diff_wrapper(&old, &new);
    assert!(diff_chunks.is_ok());
    if let Ok(diff_chunks) = diff_chunks {
        assert_eq!(diff_chunks, BinaryDiff::from(&vec![Delete(0, 2)]));
    }
}

#[test]
fn test_chunks_delete_insert() {
    let old = vec![0, 1];
    let new = vec![2, 3];
    let diff_chunks = binary_diff_wrapper(&old, &new);
    assert!(diff_chunks.is_ok());
    if let Ok(diff_chunks) = diff_chunks {
        assert_eq!(
            diff_chunks,
            BinaryDiff::from(&vec![Delete(0, 2), Insert(2, new[0..=1].to_vec())])
        );
    }
}

#[test]
fn test_chunks_delete_insert_same() {
    let old = vec![0, 1, 4];
    let new = vec![2, 3, 4];
    let diff_chunks = binary_diff_wrapper(&old, &new);
    assert!(diff_chunks.is_ok());
    if let Ok(diff_chunks) = diff_chunks {
        assert_eq!(
            diff_chunks,
            BinaryDiff::from(&vec![
                Delete(0, 2),
                Insert(2, new[0..=1].to_vec()),
                Same(2, 1)
            ])
        );
    }
}

#[test]
fn test_chunks_delete_insert_same_subset() {
    let old = vec![1, 2, 0, 0];
    let new = vec![0, 3, 0, 0];
    let diff_chunks = binary_diff_wrapper(&old, &new);
    assert!(diff_chunks.is_ok());
    if let Ok(diff_chunks) = diff_chunks {
        assert_eq!(
            diff_chunks,
            BinaryDiff::from(&vec![
                Delete(0, 2),
                Insert(2, new[0..=1].to_vec()),
                Same(2, 2)
            ])
        );
    }
}

#[test]
fn test_chunks_delete_same_insert() {
    let old = vec![0, 1, 2];
    let new = vec![2, 3, 4];
    let diff_chunks = binary_diff_wrapper(&old, &new);
    assert!(diff_chunks.is_ok());
    if let Ok(diff_chunks) = diff_chunks {
        assert_eq!(
            diff_chunks,
            BinaryDiff::from(&vec![
                Delete(0, 2),
                Same(2, 1),
                Insert(3, new[1..=2].to_vec())
            ])
        );
    }
}

#[test]
fn test_lcs_appears_far() {
    let old = vec![
        0x00, 0x10, 0x03, 0x00, 0x00, 0x00, 0x00, 0x00, 0xb7, 0x00, 0x30,
    ];
    let new = vec![
        0x00, 0x2e, 0x03, 0x00, 0x00, 0x03, 0xfe, 0xe3, 0xe3, 0x2e, 0x03, 0x00, 0x00, 0x00,
        0xb7, 0x00, 0x30,
    ];
    let diff_chunks = binary_diff_wrapper(&old, &new);
    assert!(diff_chunks.is_ok());
    if let Ok(diff_chunks) = diff_chunks {
        assert_eq!(
            diff_chunks,
            BinaryDiff::from(&vec![
                Same(0, 1),
                Delete(1, 1),
                Insert(2, vec![0x2e]),
                Same(2, 3),
                Insert(5, vec![0x03, 0xfe, 0xe3, 0xe3, 0x2e, 0x03]),
                Same(5, 6),
            ])
        );
    }
}

#[test]
fn test_chunks_same_delete_same_delete_insert_same() {
    let old = vec![
        0x2e, 0x03, 0x00, 0x00, 0x03, 0xfe, 0xe3, 0xe3, 0x2e, 0x03, 0x00, 0x00, 0x00, 0x2e,
        0x03, 0x00, 0x00, 0x03, 0xfe, 0xe3, 0xe3, 0x2e, 0x03, 0x00, 0x00, 0x00, 0xb7, 0x03,
        0x00, 0x00, 0x03, 0xfe,
    ];
    let new = vec![
        0x2e, 0x03, 0x00, 0x00, 0x03, 0xfe, 0x2e, 0x03, 0x18, 0x03, 0x18, 0x00, 0x00, 0x2e,
        0x03, 0x00, 0x00, 0x03, 0xfe, 0xe3, 0xe3, 0x2e, 0x03, 0x00, 0x00, 0x00, 0xb7, 0x03,
        0x00, 0x00, 0x03, 0xfe,
    ];
    let diff_chunks = binary_diff_wrapper(&old, &new);
    assert!(diff_chunks.is_ok());
    if let Ok(diff_chunks) = diff_chunks {
        assert_eq!(
            diff_chunks,
            BinaryDiff::from(&vec![
                Same(0x0, 0x6),
                Delete(0x6, 0x2),
                Same(0x8, 0x2),
                Insert(0xa, vec![0x18, 0x03, 0x18]),
                Same(0xa, 2),
                Delete(0xc, 1),
                Same(0xd, 19),
            ])
        );
    }
}

#[test]
fn computes_from_the_start_wherever_the_cursors_stand() {
    let mut old = ByteReader::new(vec![0, 1, 2, 3]);
    let mut new = ByteReader::new(vec![0, 1]);
    assert_eq!(old.seek(3), Ok(()));
    assert_eq!(new.seek(2), Ok(()));
    let diff = BinaryDiff::new(&mut old, &mut new).unwrap();
    assert_eq!(diff.chunks(), &vec![Same(0, 2), Delete(2, 2)]);
    assert_eq!(old.stream_position(), 4);
    assert_eq!(new.stream_position(), 2);
    assert_eq!(get_buffer_length(&mut old), Ok(4));
    assert_eq!(old.stream_position(), 0);
}
