use binary_diff::viewer::{
    next_state, page_view, xxd_row, xxd_rows, HexCell, PageView, TextCell, ViewerKey,
    ViewerState, XxdRow,
};
use std::collections::HashSet;

fn positions(listed: &[usize]) -> HashSet<usize> {
    listed.iter().copied().collect()
}

fn state(page: usize, scroll: u16) -> ViewerState {
    ViewerState { page, scroll }
}

#[test]
fn pages_turn_within_the_series() {
    // Three files make two pairs and four pages.
    assert_eq!(next_state(state(0, 0), ViewerKey::Right, 3), Some(state(1, 0)));
    assert_eq!(next_state(state(2, 5), ViewerKey::Right, 3), Some(state(3, 5)));
    assert_eq!(next_state(state(3, 5), ViewerKey::Right, 3), Some(state(3, 5)));
    assert_eq!(next_state(state(3, 5), ViewerKey::Left, 3), Some(state(2, 5)));
    assert_eq!(next_state(state(0, 5), ViewerKey::Left, 3), Some(state(0, 5)));
    assert_eq!(next_state(state(1, 0), ViewerKey::Right, 2), Some(state(1, 0)));
}

#[test]
fn scrolling_saturates() {
    assert_eq!(next_state(state(1, 0), ViewerKey::Down, 2), Some(state(1, 1)));
    assert_eq!(next_state(state(1, 1), ViewerKey::Up, 2), Some(state(1, 0)));
    assert_eq!(next_state(state(1, 0), ViewerKey::Up, 2), Some(state(1, 0)));
    assert_eq!(
        next_state(state(1, u16::MAX), ViewerKey::Down, 2),
        Some(state(1, u16::MAX))
    );
}

#[test]
fn quit_ends_and_other_keys_change_nothing() {
    assert_eq!(next_state(state(1, 7), ViewerKey::Quit, 2), None);
    assert_eq!(next_state(state(1, 7), ViewerKey::Other, 2), Some(state(1, 7)));
}

#[test]
fn a_page_shows_one_file_of_a_pair() {
    assert_eq!(
        page_view(0, 3),
        PageView { before: 0, after: 1, shows_after: false }
    );
    assert_eq!(
        page_view(1, 3),
        PageView { before: 0, after: 1, shows_after: true }
    );
    assert_eq!(
        page_view(2, 3),
        PageView { before: 1, after: 2, shows_after: false }
    );
    assert_eq!(
        page_view(3, 3),
        PageView { before: 1, after: 2, shows_after: true }
    );
}

#[test]
fn a_row_of_a_short_file() {
    let bytes = vec![0x41, 0x00, 0x7e, 0x20, 0x21];
    let row = xxd_row(&bytes, &positions(&[1, 2, 3]), 0);
    let mut cells = vec![
        HexCell::Byte(0x41, false),
        HexCell::Byte(0x00, true),
        HexCell::Byte(0x7e, true),
        HexCell::Byte(0x20, true),
        HexCell::Byte(0x21, false),
    ];
    cells.resize(16, HexCell::Blank);
    assert_eq!(
        row,
        XxdRow {
            offset: 0,
            // Only the gap before the third byte has highlighted bytes on
            // both sides.
            gaps: vec![false, true, false, false, false, false, false, false],
            bytes: cells,
            text: vec![
                TextCell::Graphic(0x41, false),
                TextCell::Other(true),
                TextCell::Graphic(0x7e, true),
                TextCell::Other(true),
                TextCell::Graphic(0x21, false),
            ],
        }
    );
}

#[test]
fn the_first_gap_of_a_row_is_never_highlighted() {
    let bytes = vec![1u8; 32];
    let all: Vec<usize> = (0..32).collect();
    let rows = xxd_rows(&bytes, &positions(&all));
    assert_eq!(rows.len(), 3);
    for (line, row) in rows.iter().take(2).enumerate() {
        assert_eq!(row.offset, 16 * line);
        assert_eq!(
            row.gaps,
            vec![false, true, true, true, true, true, true, true]
        );
        assert_eq!(row.bytes, vec![HexCell::Byte(1, true); 16]);
        assert_eq!(row.text, vec![TextCell::Other(true); 16]);
    }
    assert_eq!(rows[2].offset, 32);
    assert_eq!(rows[2].gaps, vec![false; 8]);
    assert_eq!(rows[2].bytes, vec![HexCell::Blank; 16]);
    assert_eq!(rows[2].text, Vec::<TextCell>::new());
}

#[test]
fn rows_of_an_empty_file() {
    let rows = xxd_rows(&vec![], &positions(&[]));
    assert_eq!(rows.len(), 1);
    assert_eq!(rows[0].offset, 0);
    assert_eq!(rows[0].bytes, vec![HexCell::Blank; 16]);
    assert_eq!(rows[0].text, Vec::<TextCell>::new());
}

#[test]
fn rows_count_every_sixteen_bytes_begun() {
    for (length, count) in [(1usize, 1usize), (15, 1), (16, 2), (17, 2), (31, 2), (32, 3)] {
        assert_eq!(xxd_rows(&vec![0u8; length], &positions(&[])).len(), count);
    }
}

#[test]
fn a_gap_goes_by_the_highlighted_positions_alone() {
    // The file ends behind its first byte; the gap before the third place
    // is highlighted all the same, since both positions beside it are.
    let row = xxd_row(&vec![0x41], &positions(&[0, 1, 2]), 0);
    assert_eq!(
        row.gaps,
        vec![false, true, false, false, false, false, false, false]
    );
    let mut cells = vec![HexCell::Byte(0x41, true)];
    cells.resize(16, HexCell::Blank);
    assert_eq!(row.bytes, cells);
    assert_eq!(row.text, vec![TextCell::Graphic(0x41, true)]);
}
