use crate::binary_diff::algorithm::longest_common_substring::lemma_longest_common_substring_exists;
use crate::binary_diff::algorithm::longest_common_substring::lemma_longest_common_substring_is;
use crate::binary_diff::algorithm::longest_common_substring::longest_common_substring;
use crate::binary_diff::algorithm::longest_common_substring::longest_common_substring_of;
use crate::binary_diff::binary_diff_chunk::BinaryDiffChunk;
use crate::binary_diff::binary_diff_chunk::ChunkView;
use crate::binary_diff::error::BinaryDiffError;
use crate::binary_diff::helper::find::first_occurrence;
use crate::binary_diff::helper::find::lemma_first_occurrence_exists;
use crate::binary_diff::helper::find_byte;
use crate::binary_diff::helper::seek_to_byte;
use crate::byte_reader::ByteReader;
use vstd::prelude::*;

verus! {

/// The first `width` bytes of what is left of a stream, or all of it where
/// it is shorter.
pub open spec fn window_of(remaining: Seq<u8>, width: int) -> Seq<u8> {
    remaining.take(vstd::math::min(width, remaining.len() as int))
}

/// `found` is the position in `old_window` of the byte that reappears
/// earliest in `new_window`: no byte of `old_window` has its first
/// occurrence in `new_window` before that of `old_window[found]`, and of the
/// positions whose byte occurs equally early, `found` is the smallest. It
/// is `None` where no byte of `old_window` occurs in `new_window`.
pub open spec fn is_closest_reappearance(
    old_window: Seq<u8>,
    new_window: Seq<u8>,
    found: Option<int>,
) -> bool {
    match found {
        Some(position) => {
            &&& 0 <= position < old_window.len()
            &&& first_occurrence(new_window, old_window[position]) < new_window.len()
            &&& forall|i: int|
                0 <= i < old_window.len() ==> {
                    let here = first_occurrence(new_window, old_window[position]);
                    let there = first_occurrence(new_window, #[trigger] old_window[i]);
                    here < there || (here == there && position <= i)
                }
        },
        None => forall|i: int|
            0 <= i < old_window.len() ==> first_occurrence(new_window, #[trigger] old_window[i])
                == new_window.len(),
    }
}

/// The position in `old_window` of the byte that reappears earliest in
/// `new_window`, if any byte of it does.
pub open spec fn closest_reappearance(old_window: Seq<u8>, new_window: Seq<u8>) -> Option<int> {
    choose|found: Option<int>| is_closest_reappearance(old_window, new_window, found)
}

/// An answer that qualifies as the closest reappearance is the one that
/// `closest_reappearance` names.
pub proof fn lemma_closest_reappearance_is(
    old_window: Seq<u8>,
    new_window: Seq<u8>,
    found: Option<int>,
)
    requires
        is_closest_reappearance(old_window, new_window, found),
    ensures
        closest_reappearance(old_window, new_window) == found,
{
    let chosen = closest_reappearance(old_window, new_window);
    assert(is_closest_reappearance(old_window, new_window, chosen));
    match (chosen, found) {
        (Some(a), Some(b)) => {
            let _ = old_window[a];
            let _ = old_window[b];
        },
        (Some(a), None) => {
            let _ = old_window[a];
        },
        (None, Some(b)) => {
            let _ = old_window[b];
        },
        (None, None) => {},
    }
}

/// Some answer always qualifies as the closest reappearance.
pub proof fn lemma_closest_reappearance_exists(old_window: Seq<u8>, new_window: Seq<u8>)
    ensures
        is_closest_reappearance(
            old_window,
            new_window,
            closest_reappearance(old_window, new_window),
        ),
    decreases old_window.len(),
{
    if old_window.len() == 0 {
        assert(is_closest_reappearance(old_window, new_window, None));
    } else {
        let front = old_window.drop_last();
        let last = old_window.len() - 1;
        lemma_closest_reappearance_exists(front, new_window);
        let in_front = closest_reappearance(front, new_window);
        let at_last = first_occurrence(new_window, old_window[last]);
        lemma_first_occurrence_exists(new_window, old_window[last]);
        assert forall|i: int| 0 <= i < last implies front[i] == old_window[i] by {}
        let found = match in_front {
            Some(position) => {
                if at_last < first_occurrence(new_window, front[position]) {
                    Some(last)
                } else {
                    Some(position)
                }
            },
            None => {
                if at_last < new_window.len() {
                    Some(last)
                } else {
                    None
                }
            },
        };
        assert(is_closest_reappearance(old_window, new_window, found)) by {
            match found {
                Some(position) => {
                    assert forall|i: int| 0 <= i < old_window.len() implies {
                        let here = first_occurrence(new_window, old_window[position]);
                        let there = first_occurrence(new_window, #[trigger] old_window[i]);
                        here < there || (here == there && position <= i)
                    } by {
                        if i < last {
                            let _ = front[i];
                        }
                    }
                },
                None => {
                    assert forall|i: int| 0 <= i < old_window.len() implies first_occurrence(
                        new_window,
                        #[trigger] old_window[i],
                    ) == new_window.len() by {
                        if i < last {
                            let _ = front[i];
                        }
                    }
                },
            }
        }
    }
}

/// Widths of the look-ahead windows, in the order in which they are tried.
pub open spec fn ladder_width(step: int) -> int {
    if step <= 0 {
        4
    } else if step == 1 {
        6
    } else if step == 2 {
        8
    } else if step == 3 {
        16
    } else if step == 4 {
        32
    } else {
        64
    }
}

/// What one look-ahead window says of the length to delete, or `None` where
/// it cannot tell. A window narrower than 8 bytes looks for the byte of the
/// original that reappears earliest in the patched window and deletes up to
/// it. A wider one deletes up to the start, in the original, of the longest
/// run that both windows share.
pub open spec fn delete_length_in_window(original: Seq<u8>, patched: Seq<u8>, width: int) -> Option<
    int,
> {
    let old_window = window_of(original, width);
    let new_window = window_of(patched, width);
    if width < 8 {
        closest_reappearance(old_window, new_window)
    } else {
        let run = longest_common_substring_of(old_window, new_window);
        if run.2 > 0 {
            Some(run.0)
        } else {
            None
        }
    }
}

/// The length to delete as the windows from `step` on decide it: the answer
/// of the first window that can tell, and where none can, the distance to
/// the first byte of the original that equals the next byte of the patched
/// stream (all that is left where there is no such byte).
pub open spec fn delete_length_from_step(original: Seq<u8>, patched: Seq<u8>, step: int) -> int
    decreases 6 - step,
{
    if step >= 6 {
        first_occurrence(original, patched[0])
    } else {
        match delete_length_in_window(original, patched, ladder_width(step)) {
            Some(length) => length,
            None => delete_length_from_step(original, patched, step + 1),
        }
    }
}

/// How many bytes are deleted from the original, given what is left of both
/// streams: everything where the patched stream has ended, nothing where
/// the original has, and else what the windows decide.
pub open spec fn delete_length(original: Seq<u8>, patched: Seq<u8>) -> int {
    if patched.len() == 0 {
        original.len() as int
    } else if original.len() == 0 {
        0
    } else {
        delete_length_from_step(original, patched, 0)
    }
}

/// The length to delete stays within the original.
pub proof fn lemma_delete_length(original: Seq<u8>, patched: Seq<u8>)
    ensures
        0 <= delete_length(original, patched) <= original.len(),
{
    if patched.len() > 0 && original.len() > 0 {
        lemma_delete_length_from_step(original, patched, 0);
    }
}

/// Whichever window decides, the length stays within the original.
proof fn lemma_delete_length_from_step(original: Seq<u8>, patched: Seq<u8>, step: int)
    requires
        original.len() > 0,
        patched.len() > 0,
        0 <= step,
    ensures
        0 <= delete_length_from_step(original, patched, step) <= original.len(),
    decreases 6 - step,
{
    if step >= 6 {
        lemma_first_occurrence_exists(original, patched[0]);
    } else {
        let width = ladder_width(step);
        let old_window = window_of(original, width);
        let new_window = window_of(patched, width);
        lemma_closest_reappearance_exists(old_window, new_window);
        lemma_longest_common_substring_exists(old_window, new_window);
        lemma_delete_length_from_step(original, patched, step + 1);
    }
}

/// The width of the window tried at `step`.
fn width_at(step: usize) -> (width: usize)
    ensures
        width == ladder_width(step as int),
{
    if step == 0 {
        4
    } else if step == 1 {
        6
    } else if step == 2 {
        8
    } else if step == 3 {
        16
    } else if step == 4 {
        32
    } else {
        64
    }
}

/// Finds the position in `old_window` of the byte that reappears earliest in
/// `new_window`.
pub fn find_closest_reappearance(old_window: &Vec<u8>, new_window: &Vec<u8>) -> (found: Option<
    usize,
>)
    ensures
        closest_reappearance(old_window@, new_window@) == match found {
            Some(position) => Some(position as int),
            None => None::<int>,
        },
{
    let mut best: Option<(usize, usize)> = None;
    let mut i: usize = 0;
    while i < old_window.len()
        invariant
            i <= old_window@.len(),
            match best {
                Some((position, at)) => {
                    &&& position < i
                    &&& at == first_occurrence(new_window@, old_window@[position as int])
                    &&& at < new_window@.len()
                    &&& forall|j: int|
                        0 <= j < i ==> {
                            let there = first_occurrence(new_window@, #[trigger] old_window@[j]);
                            at < there || (at == there && position <= j)
                        }
                },
                None => forall|j: int|
                    0 <= j < i ==> first_occurrence(new_window@, #[trigger] old_window@[j])
                        == new_window@.len(),
            },
        decreases old_window@.len() - i,
    {
        let at = find_byte(new_window.as_slice(), old_window[i]);
        proof {
            lemma_first_occurrence_exists(new_window@, old_window@[i as int]);
        }
        if at < new_window.len() {
            match best {
                Some((_, best_at)) => {
                    if at < best_at {
                        best = Some((i, at));
                    }
                },
                None => {
                    best = Some((i, at));
                },
            }
        }
        i += 1;
    }
    match best {
        Some((position, _)) => {
            proof {
                lemma_closest_reappearance_is(old_window@, new_window@, Some(position as int));
            }
            Some(position)
        },
        None => {
            proof {
                lemma_closest_reappearance_is(old_window@, new_window@, None);
            }
            None
        },
    }
}

/// Emits a `Delete` chunk at the cursor of the original that reaches up to
/// the next byte of the original expected to take part in a `Same` chunk,
/// and moves that cursor past it. Its length is `delete_length` of what is
/// left of both streams; where that is zero nothing is emitted. The patched
/// stream is only looked at.
pub fn get_delete_chunk(original: &mut ByteReader, patched: &mut ByteReader) -> (result: Result<
    Option<BinaryDiffChunk>,
    BinaryDiffError,
>)
    ensures
        final(original)@ == old(original)@,
        final(patched)@ == old(patched)@,
        final(patched).position() == old(patched).position(),
        ({
            let length = delete_length(old(original).remaining(), old(patched).remaining());
            &&& 0 <= length <= old(original).remaining().len()
            &&& final(original).position() == old(original).position() + length
            &&& result matches Ok(emitted)
            &&& match emitted {
                Some(chunk) => length > 0 && chunk@ == ChunkView::Delete(
                    old(original).position(),
                    length as nat,
                ),
                None => length == 0,
            }
        }),
{
    let offset = original.stream_position();
    let patched_position = patched.stream_position();
    let original_left = original.len() - offset;
    let patched_left = patched.len() - patched_position;
    let ghost first = original.remaining();
    let ghost second = patched.remaining();

    if patched_left == 0 {
        match original.seek(offset + original_left) {
            Ok(()) => {},
            Err(kind) => {
                return Err(BinaryDiffError::IoError(kind));
            },
        }
        return if original_left > 0 {
            Ok(Some(BinaryDiffChunk::Delete(offset, original_left)))
        } else {
            Ok(None)
        };
    }
    if original_left == 0 {
        return Ok(None);
    }
    let mut step: usize = 0;
    while step < 6
        invariant
            original@ == old(original)@,
            patched@ == old(patched)@,
            original.position() == offset == old(original).position(),
            patched.position() == patched_position == old(patched).position(),
            first == old(original).remaining(),
            second == old(patched).remaining(),
            first.len() == original_left > 0,
            second.len() == patched_left > 0,
            offset + original_left == original@.len() <= usize::MAX,
            step <= 6,
            delete_length(first, second) == delete_length_from_step(first, second, step as int),
            step > 0 ==> first[0] != second[0],
        decreases 6 - step,
    {
        let width = width_at(step);
        let old_window = original.read_window(width);
        let new_window = patched.read_window(width);
        assert(old_window@ == window_of(first, width as int));
        assert(new_window@ == window_of(second, width as int));
        let decided = if width >= 8 {
            let run = longest_common_substring(old_window.as_slice(), new_window.as_slice());
            proof {
                lemma_longest_common_substring_is(
                    old_window@,
                    new_window@,
                    run.first_pos as int,
                    run.second_pos as int,
                    run.length as int,
                );
            }
            if run.length > 0 {
                Some(run.first_pos)
            } else {
                None
            }
        } else {
            let found = find_closest_reappearance(&old_window, &new_window);
            proof {
                lemma_closest_reappearance_exists(old_window@, new_window@);
                if found is None {
                    lemma_first_occurrence_exists(new_window@, old_window@[0]);
                    assert(first[0] == old_window@[0]);
                    assert(second[0] == new_window@[0]);
                }
            }
            found
        };
        match decided {
            Some(length) => {
                assert(delete_length_in_window(first, second, width as int) == Some(
                    length as int,
                ));
                assert(length <= old_window@.len());
                match original.seek(offset + length) {
                    Ok(()) => {},
                    Err(kind) => {
                        return Err(BinaryDiffError::IoError(kind));
                    },
                }
                return if length > 0 {
                    Ok(Some(BinaryDiffChunk::Delete(offset, length)))
                } else {
                    Ok(None)
                };
            },
            None => {
                assert(delete_length_in_window(first, second, width as int) is None);
            },
        }
        step += 1;
    }
    let next = patched.read_window(1);
    let byte = next[0];
    assert(byte == second[0]);
    let distance = match seek_to_byte(original, byte) {
        Ok(distance) => distance,
        Err(error) => {
            return Err(error);
        },
    };
    proof {
        lemma_first_occurrence_exists(first, byte);
    }
    Ok(Some(BinaryDiffChunk::Delete(offset, distance)))
}

} // verus!
