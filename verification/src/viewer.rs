use std::collections::HashSet;
use vstd::prelude::*;

verus! {

/// What the viewer reacts to.
#[derive(Debug, Clone, Copy, PartialEq, Eq, Structural)]
pub enum ViewerKey {
    Quit,
    Right,
    Left,
    Down,
    Up,
    Other,
}

/// Where the viewer stands: the page shown and how far it is scrolled.
/// Each pair of neighbouring files has two pages, one for the file before
/// the change and one for the file after it.
#[derive(Debug, Clone, Copy, PartialEq, Eq, Structural)]
pub struct ViewerState {
    pub page: usize,
    pub scroll: u16,
}

/// The last page of a series of `file_count` files.
pub open spec fn last_page(file_count: int) -> int {
    (file_count - 1) * 2 - 1
}

/// The state behind `key`: `Right` and `Left` turn the page within the
/// series, `Down` and `Up` scroll within what a `u16` holds, and any other
/// key changes nothing.
pub open spec fn state_after(state: ViewerState, key: ViewerKey, file_count: int) -> ViewerState {
    match key {
        ViewerKey::Right => ViewerState {
            page: vstd::math::min(state.page + 1, last_page(file_count)) as usize,
            scroll: state.scroll,
        },
        ViewerKey::Left => ViewerState {
            page: vstd::math::max(state.page - 1, 0) as usize,
            scroll: state.scroll,
        },
        ViewerKey::Down => ViewerState {
            page: state.page,
            scroll: vstd::math::min(state.scroll + 1, u16::MAX as int) as u16,
        },
        ViewerKey::Up => ViewerState {
            page: state.page,
            scroll: vstd::math::max(state.scroll - 1, 0) as u16,
        },
        _ => state,
    }
}

/// The viewer's reaction to a key: `None` to quit, else the state to go on
/// with.
pub fn next_state(state: ViewerState, key: ViewerKey, file_count: usize) -> (next: Option<
    ViewerState,
>)
    requires
        2 <= file_count <= usize::MAX / 2,
    ensures
        next == if key == ViewerKey::Quit {
            None
        } else {
            Some(state_after(state, key, file_count as int))
        },
{
    let last = (file_count - 1) * 2 - 1;
    match key {
        ViewerKey::Quit => None,
        ViewerKey::Right => Some(
            ViewerState {
                page: if state.page < last {
                    state.page + 1
                } else {
                    last
                },
                scroll: state.scroll,
            },
        ),
        ViewerKey::Left => Some(
            ViewerState {
                page: if state.page > 0 {
                    state.page - 1
                } else {
                    0
                },
                scroll: state.scroll,
            },
        ),
        ViewerKey::Down => Some(
            ViewerState {
                page: state.page,
                scroll: if state.scroll < u16::MAX {
                    state.scroll + 1
                } else {
                    u16::MAX
                },
            },
        ),
        ViewerKey::Up => Some(
            ViewerState {
                page: state.page,
                scroll: if state.scroll > 0 {
                    state.scroll - 1
                } else {
                    0
                },
            },
        ),
        ViewerKey::Other => Some(state),
    }
}

/// What a page shows: the two files compared, by their places in the
/// series, and which of them is on display.
#[derive(Debug, Clone, Copy, PartialEq, Eq, Structural)]
pub struct PageView {
    pub before: usize,
    pub after: usize,
    pub shows_after: bool,
}

/// The files that `page` compares, and the one it displays: even pages the
/// file before the change, odd pages the file after it.
pub fn page_view(page: usize, file_count: usize) -> (view: PageView)
    requires
        2 <= file_count,
        page <= last_page(file_count as int),
    ensures
        view.before == page / 2,
        view.after == page / 2 + 1,
        view.after < file_count,
        view.shows_after == (page % 2 == 1),
{
    PageView { before: page / 2, after: page / 2 + 1, shows_after: page % 2 == 1 }
}

/// One byte in the hexadecimal columns of a dump row: the byte and whether
/// it is highlighted, or a blank behind the end of the file.
#[derive(Debug, Clone, Copy, PartialEq, Eq, Structural)]
pub enum HexCell {
    Byte(u8, bool),
    Blank,
}

/// One byte in the text column of a dump row: a printable character or a
/// stand-in for any other byte, and whether it is highlighted.
#[derive(Debug, Clone, Copy, PartialEq, Eq, Structural)]
pub enum TextCell {
    Graphic(u8, bool),
    Other(bool),
}

/// One row of a dump: sixteen bytes from `offset` on, as far as the file
/// reaches.
#[derive(Debug, PartialEq, Eq)]
pub struct XxdRow {
    /// Position in the file of the row's first byte.
    pub offset: usize,
    /// For each of the eight gaps that stand before a pair of bytes,
    /// whether it is highlighted.
    pub gaps: Vec<bool>,
    /// The sixteen cells of the hexadecimal columns.
    pub bytes: Vec<HexCell>,
    /// The cells of the text column, one for each byte that the file has
    /// in this row.
    pub text: Vec<TextCell>,
}

/// `position` is one of the highlighted positions.
pub open spec fn highlighted_at(highlighted: Set<usize>, position: int) -> bool {
    0 <= position <= usize::MAX && highlighted.contains(position as usize)
}

/// The byte is a printable ASCII character other than the space.
pub open spec fn is_graphic(byte: u8) -> bool {
    0x21 <= byte <= 0x7e
}

/// The cell of the hexadecimal columns for `position`.
pub open spec fn hex_cell_at(bytes: Seq<u8>, highlighted: Set<usize>, position: int) -> HexCell {
    if 0 <= position < bytes.len() {
        HexCell::Byte(bytes[position], highlighted_at(highlighted, position))
    } else {
        HexCell::Blank
    }
}

/// The cell of the text column for `position`.
pub open spec fn text_cell_at(bytes: Seq<u8>, highlighted: Set<usize>, position: int) -> TextCell {
    if is_graphic(bytes[position]) {
        TextCell::Graphic(bytes[position], highlighted_at(highlighted, position))
    } else {
        TextCell::Other(highlighted_at(highlighted, position))
    }
}

/// The gap before the byte at `position`, which is the byte at place
/// `place` of its row, is highlighted where the row has a byte before it
/// and that byte and the byte itself are highlighted.
pub open spec fn gap_highlighted(highlighted: Set<usize>, position: int, place: int) -> bool {
    place > 0 && highlighted_at(highlighted, position - 1) && highlighted_at(highlighted, position)
}

/// `row` is the dump row that starts at `offset`.
pub open spec fn is_row_at(
    row: XxdRow,
    bytes: Seq<u8>,
    highlighted: Set<usize>,
    offset: int,
) -> bool {
    &&& row.offset == offset
    &&& row.gaps@.len() == 8
    &&& forall|k: int|
        0 <= k < 8 ==> #[trigger] row.gaps@[k] == gap_highlighted(
            highlighted,
            offset + 2 * k,
            2 * k,
        )
    &&& row.bytes@.len() == 16
    &&& forall|k: int|
        0 <= k < 16 ==> #[trigger] row.bytes@[k] == hex_cell_at(bytes, highlighted, offset + k)
    &&& row.text@.len() == vstd::math::min(16, bytes.len() - offset)
    &&& forall|k: int|
        0 <= k < row.text@.len() ==> #[trigger] row.text@[k] == text_cell_at(
            bytes,
            highlighted,
            offset + k,
        )
}

/// Whether `offset + place` is one of the highlighted positions.
fn is_highlighted(highlighted: &HashSet<usize>, offset: usize, place: usize) -> (marked: bool)
    ensures
        marked == highlighted_at(highlighted@, offset + place),
{
    if place <= usize::MAX - offset {
        let position = offset + place;
        highlighted.contains(&position)
    } else {
        false
    }
}

/// The dump row that starts at `offset`.
pub fn xxd_row(bytes: &Vec<u8>, highlighted: &HashSet<usize>, offset: usize) -> (row: XxdRow)
    requires
        offset <= bytes@.len(),
    ensures
        is_row_at(row, bytes@, highlighted@, offset as int),
{
    let length = bytes.len();
    let left = length - offset;
    let mut gaps: Vec<bool> = Vec::new();
    let mut cells: Vec<HexCell> = Vec::new();
    let mut text: Vec<TextCell> = Vec::new();
    let mut place: usize = 0;
    while place < 16
        invariant
            place <= 16,
            length == bytes@.len(),
            left == length - offset,
            gaps@.len() == (place + 1) / 2,
            forall|k: int|
                0 <= k < gaps@.len() ==> #[trigger] gaps@[k] == gap_highlighted(
                    highlighted@,
                    offset + 2 * k,
                    2 * k,
                ),
            cells@.len() == place,
            forall|k: int|
                0 <= k < place ==> #[trigger] cells@[k] == hex_cell_at(
                    bytes@,
                    highlighted@,
                    offset + k,
                ),
            text@.len() == vstd::math::min(place as int, left as int),
            forall|k: int|
                0 <= k < text@.len() ==> #[trigger] text@[k] == text_cell_at(
                    bytes@,
                    highlighted@,
                    offset + k,
                ),
        decreases 16 - place,
    {
        let marked = is_highlighted(highlighted, offset, place);
        if place % 2 == 0 {
            gaps.push(place > 0 && is_highlighted(highlighted, offset, place - 1) && marked);
        }
        if place < left {
            let byte = bytes[offset + place];
            cells.push(HexCell::Byte(byte, marked));
            if 0x21 <= byte && byte <= 0x7e {
                text.push(TextCell::Graphic(byte, marked));
            } else {
                text.push(TextCell::Other(marked));
            }
        } else {
            cells.push(HexCell::Blank);
        }
        place += 1;
    }
    XxdRow { offset, gaps, bytes: cells, text }
}

/// The dump of a file: one row for every sixteen bytes begun, and one more
/// where the length is a multiple of sixteen.
pub fn xxd_rows(bytes: &Vec<u8>, highlighted: &HashSet<usize>) -> (rows: Vec<XxdRow>)
    ensures
        rows@.len() == 1 + bytes@.len() / 16,
        forall|r: int|
            0 <= r < rows@.len() ==> is_row_at(#[trigger] rows@[r], bytes@, highlighted@, 16 * r),
{
    let length = bytes.len();
    let count = length / 16;
    let mut rows: Vec<XxdRow> = Vec::new();
    let mut line: usize = 0;
    while line <= count
        invariant
            length == bytes@.len(),
            count == length / 16,
            line <= count + 1,
            rows@.len() == line,
            forall|r: int|
                0 <= r < rows@.len() ==> is_row_at(
                    #[trigger] rows@[r],
                    bytes@,
                    highlighted@,
                    16 * r,
                ),
        decreases count + 1 - line,
    {
        let row = xxd_row(bytes, highlighted, line * 16);
        rows.push(row);
        line += 1;
    }
    rows
}

} // verus!
