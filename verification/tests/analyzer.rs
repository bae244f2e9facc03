use binary_diff::binary_diff_analyzer::_derives_from;
use binary_diff::BinaryDiff;
use binary_diff::BinaryDiffAnalyzer;
use binary_diff::BinaryDiffAnalyzerError;
use binary_diff::BinaryDiffChunk;
use binary_diff::BinaryDiffChunk::{Delete, Insert, Replace, Same};
use binary_diff::ByteReader;
use binary_diff::DerivesFrom;
use binary_diff::IoErrorKind;

fn derived<'a>(
    patched_position: usize,
    relative_position: usize,
    chunk: &'a BinaryDiffChunk,
) -> Option<DerivesFrom<'a>> {
    Some(DerivesFrom {
        patched_position,
        relative_position,
        chunk,
    })
}

fn original_position(found: Option<DerivesFrom>) -> Option<usize> {
    found.and_then(|found| found.original_position())
}

#[test]
fn test_derives_from_same() {
    let chunk = BinaryDiffChunk::Same(1, 2);
    let derives_from_same = DerivesFrom {
        patched_position: 2,
        relative_position: 1,
        chunk: &chunk,
    };
    assert_eq!(derives_from_same.original_position(), Some(2));
}

#[test]
fn derives_from_test_derives_from_insert() {
    let chunk = BinaryDiffChunk::Insert(3, vec![0]);
    let derives_from = DerivesFrom {
        patched_position: 0,
        relative_position: 0,
        chunk: &chunk,
    };
    assert_eq!(derives_from.original_position(), None);
}

#[test]
fn test_binary_diff_analyzer() {
    let chunk = Insert(0, vec![0, 1, 2, 3]);
    let diff = BinaryDiff::from(&vec![chunk.clone()]);
    let buf = ByteReader::new(vec![0, 1, 2, 3]);
    let mut analyzer = BinaryDiffAnalyzer::new(&diff, buf);
    match analyzer.derives_from(1) {
        Ok(result) => {
            assert_eq!(result, derived(1, 1, &chunk));
            assert_eq!(original_position(result), None);
        }
        Err(why) => assert!(false, "{:?}", why),
    }
}

#[test]
fn test_derives_from_none() {
    let diff = BinaryDiff::from(&vec![Same(0, 4)]);
    assert_eq!(_derives_from(&diff, 5, 0), None);
}

#[test]
fn test_derives_from_delete_same() {
    let chunk = Same(6, 2);
    let diff = BinaryDiff::from(&vec![Same(0, 4), Delete(4, 2), chunk.clone()]);
    assert_eq!(_derives_from(&diff, 4, 0), derived(4, 0, &chunk));
    assert_eq!(original_position(_derives_from(&diff, 4, 0)), Some(6));
    assert_eq!(_derives_from(&diff, 5, 0), derived(5, 1, &chunk));
    assert_eq!(original_position(_derives_from(&diff, 5, 0)), Some(7));
    assert_eq!(_derives_from(&diff, 6, 0), None);
}

#[test]
fn mod_test_derives_from_insert() {
    let chunk = Insert(0, vec![0, 1, 2, 3]);
    let diff = BinaryDiff::from(&vec![chunk.clone()]);
    assert_eq!(_derives_from(&diff, 0, 0), derived(0, 0, &chunk));
    assert_eq!(original_position(_derives_from(&diff, 0, 0)), None);
    assert_eq!(_derives_from(&diff, 1, 1), derived(1, 1, &chunk));
    assert_eq!(original_position(_derives_from(&diff, 1, 1)), None);
    assert_eq!(_derives_from(&diff, 2, 2), derived(2, 2, &chunk));
    assert_eq!(original_position(_derives_from(&diff, 2, 2)), None);
    assert_eq!(_derives_from(&diff, 3, 3), derived(3, 3, &chunk));
    assert_eq!(original_position(_derives_from(&diff, 3, 3)), None);
    assert_eq!(_derives_from(&diff, 4, 4), None);
}

#[test]
fn test_derives_from_replace() {
    let chunk = Replace(4, 2, vec![0, 1, 2, 3]);
    let diff = BinaryDiff::from(&vec![Same(0, 4), chunk.clone()]);
    assert_eq!(_derives_from(&diff, 4, 0), derived(4, 0, &chunk));
    assert_eq!(original_position(_derives_from(&diff, 4, 0)), None);
    assert_eq!(_derives_from(&diff, 5, 1), derived(5, 1, &chunk));
    assert_eq!(original_position(_derives_from(&diff, 5, 1)), None);
    assert_eq!(_derives_from(&diff, 6, 2), derived(6, 2, &chunk));
    assert_eq!(original_position(_derives_from(&diff, 6, 2)), None);
    assert_eq!(_derives_from(&diff, 7, 3), derived(7, 3, &chunk));
    assert_eq!(original_position(_derives_from(&diff, 7, 3)), None);
    assert_eq!(_derives_from(&diff, 8, 0), None);
}

#[test]
fn test_derives_from_replace_same() {
    let chunk = Same(6, 2);
    let diff = BinaryDiff::from(&vec![
        Same(0, 4),
        Replace(4, 2, vec![0, 1, 2, 3]),
        chunk.clone(),
    ]);
    assert_eq!(_derives_from(&diff, 8, 0), derived(8, 0, &chunk));
    assert_eq!(original_position(_derives_from(&diff, 8, 0)), Some(6));
    assert_eq!(_derives_from(&diff, 9, 0), derived(9, 1, &chunk));
    assert_eq!(original_position(_derives_from(&diff, 9, 0)), Some(7));
    assert_eq!(_derives_from(&diff, 10, 0), None);
}

#[test]
fn derives_from_rejects_a_byte_the_chunk_does_not_carry() {
    let diff = BinaryDiff::from(&vec![Same(0, 1), Insert(1, vec![7, 8])]);
    assert_eq!(_derives_from(&diff, 2, 7), None);
    let found = _derives_from(&diff, 2, 8).unwrap();
    assert_eq!(found.patched_position(), 2);
    assert_eq!(found.relative_position(), 1);
    assert_eq!(found.chunk(), &Insert(1, vec![7, 8]));
}

#[test]
fn analyzer_reads_the_patched_stream() {
    let old: Vec<u8> = vec![0, 1, 2, 3, 4, 5, 6, 7];
    let diff = BinaryDiff::from(&vec![Same(0, 4), Delete(4, 2), Same(6, 2)]);
    let mut analyzer = BinaryDiffAnalyzer::new(&diff, ByteReader::new(old.clone()));
    let same = Same(6, 2);
    let at_four = analyzer.derives_from(4).unwrap();
    assert_eq!(at_four, derived(4, 0, &same));
    assert_eq!(original_position(at_four), Some(6));
    let at_five = analyzer.derives_from(5).unwrap();
    assert_eq!(at_five, derived(5, 1, &same));
    assert_eq!(original_position(at_five), Some(7));
    assert_eq!(analyzer.derives_from(6), Ok(None));
    assert_eq!(
        analyzer.derives_from(8),
        Err(BinaryDiffAnalyzerError::IoError(IoErrorKind::UnexpectedEof))
    );
    assert_eq!(
        analyzer.derives_from(9),
        Err(BinaryDiffAnalyzerError::IoError(IoErrorKind::InvalidSeek))
    );
}
