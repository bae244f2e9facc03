use binary_diff::binary_diff::algorithm::introduce_replace_chunk;
use binary_diff::BinaryDiff;
use binary_diff::BinaryDiffChunk;
use binary_diff::BinaryDiffChunk::{Delete, Insert, Replace, Same};
use std::cmp::Ordering;

#[test]
fn test_introduce_replace_chunk() {
    let original = vec![
        Same(0, 1),
        Delete(1, 3),
        Same(4, 1),
        Delete(5, 4),
        Insert(8, vec![0, 0]),
    ];
    let enhanced = introduce_replace_chunk(&original);
    assert_eq!(
        enhanced,
        vec![
            original[0].clone(),
            original[1].clone(),
            original[2].clone(),
            Replace(5, 4, vec![0, 0])
        ]
    )
}

#[test]
fn test_introduce_replace_chunk_without_replace() {
    let original = vec![Same(0, 1), Delete(1, 3)];
    let enhanced = introduce_replace_chunk(&original);
    assert_eq!(enhanced, original)
}

#[test]
fn test_binary_diff_chunk_ordering() {
    assert!(Insert(1, vec![1]) < Same(1, 1));
}

#[test]
fn chunk_metrics() {
    let same = Same(3, 4);
    let insert = Insert(5, vec![1, 2, 3]);
    let delete = Delete(7, 2);
    let replace = Replace(9, 2, vec![1, 2, 3, 4, 5]);
    assert_eq!((*same.offset(), same.length(), same.patched_length(), same.end()), (3, 4, 4, 7));
    // An Insert consumes nothing of the original, so it stops where it
    // applies.
    assert_eq!(
        (*insert.offset(), insert.length(), insert.patched_length(), insert.end()),
        (5, 0, 3, 5)
    );
    assert_eq!(
        (*delete.offset(), delete.length(), delete.patched_length(), delete.end()),
        (7, 2, 0, 9)
    );
    assert_eq!(
        (*replace.offset(), replace.length(), replace.patched_length(), replace.end()),
        (9, 2, 5, 11)
    );
}

#[test]
fn length_is_what_the_chunk_consumes_of_the_original() {
    assert_eq!(Insert(3, vec![9, 9]).length(), 0);
    assert_eq!(Insert(3, vec![9, 9]).patched_length(), 2);
    assert_eq!(Same(3, 2).length(), 2);
    assert_eq!(Delete(3, 2).length(), 2);
    assert_eq!(Replace(3, 2, vec![9, 9, 9]).length(), 2);
    assert_eq!(Replace(3, 2, vec![9, 9, 9]).patched_length(), 3);
    assert_eq!(Replace(3, 2, vec![9, 9, 9]).end(), 5);
}

#[test]
fn chunk_names() {
    assert_eq!(Same(0, 1).name(), "Same");
    assert_eq!(Insert(0, vec![1]).name(), "Insert");
    assert_eq!(Delete(0, 1).name(), "Delete");
    assert_eq!(Replace(0, 1, vec![1]).name(), "Replace");
}

#[test]
fn chunk_order_by_offset_then_same_last() {
    assert!(Same(1, 9) < Insert(2, vec![1]));
    assert!(Delete(1, 1) < Same(1, 1));
    assert!(Replace(1, 1, vec![0]) < Same(1, 1));
    assert!(!(Same(1, 1) < Insert(1, vec![1])));
    assert!(Same(1, 1) > Insert(1, vec![1]));
    assert!(!(Insert(1, vec![1]) < Delete(1, 1)));
    assert!(!(Delete(1, 1) < Insert(1, vec![1])));
    assert!(Insert(1, vec![1]).precedes(&Same(1, 1)));
    assert!(!Same(1, 1).precedes(&Same(1, 1)));
}

#[test]
fn from_sorts_and_keeps_ties_in_order() {
    let unsorted = vec![
        Same(4, 1),
        Insert(4, vec![9]),
        Delete(0, 4),
        Insert(4, vec![7]),
        Same(0, 1),
    ];
    let diff = BinaryDiff::from(&unsorted);
    let expected: Vec<BinaryDiffChunk> = vec![
        Delete(0, 4),
        Same(0, 1),
        Insert(4, vec![9]),
        Insert(4, vec![7]),
        Same(4, 1),
    ];
    assert_eq!(diff.chunks(), &expected);
}

#[test]
fn enhance_fuses_and_is_idempotent() {
    let diff = BinaryDiff::from(&vec![
        Same(0, 3),
        Delete(3, 1),
        Insert(4, vec![0xfd]),
        Same(4, 4),
    ]);
    let enhanced = diff.enhance();
    assert_eq!(
        enhanced.chunks(),
        &vec![Same(0, 3), Replace(3, 1, vec![0xfd]), Same(4, 4)]
    );
    assert_eq!(enhanced.enhance(), enhanced);

    let pair = BinaryDiff::from(&vec![Delete(0, 2), Insert(2, vec![2, 3])]);
    assert_eq!(pair.enhance().chunks(), &vec![Replace(0, 2, vec![2, 3])]);

    let runs = vec![Delete(0, 1), Delete(1, 1), Insert(2, vec![1]), Insert(2, vec![2])];
    let fused = introduce_replace_chunk(&runs);
    assert_eq!(
        fused,
        vec![Delete(0, 1), Replace(1, 1, vec![1]), Insert(2, vec![2])]
    );
    assert_eq!(introduce_replace_chunk(&fused), fused);
}

#[test]
fn chunk_comparison() {
    assert_eq!(Same(1, 1).cmp(&Insert(2, vec![1])), Ordering::Less);
    assert_eq!(Insert(2, vec![1]).cmp(&Same(1, 1)), Ordering::Greater);
    assert_eq!(Insert(1, vec![1]).cmp(&Same(1, 1)), Ordering::Less);
    assert_eq!(Same(1, 1).cmp(&Insert(1, vec![1])), Ordering::Greater);
    assert_eq!(Same(1, 1).cmp(&Same(1, 2)), Ordering::Greater);
    assert_eq!(Insert(1, vec![1]).cmp(&Delete(1, 1)), Ordering::Equal);
    assert_eq!(
        Replace(1, 1, vec![1]).partial_cmp(&Delete(1, 1)),
        Some(Ordering::Equal)
    );
}
