use vstd::prelude::*;

verus! {

/// `needle` stands in `haystack` from `index` on, and `index` is a position
/// of `haystack`.
pub open spec fn occurs_at(haystack: Seq<u8>, needle: Seq<u8>, index: int) -> bool {
    0 <= index < haystack.len() && needle.is_prefix_of(haystack.skip(index))
}

/// The first position of `haystack` from which `needle` stands, if there is
/// one. An empty needle stands at the start of every haystack that holds a
/// byte.
pub fn find(haystack: &[u8], needle: &[u8]) -> (found: Option<usize>)
    ensures
        match found {
            Some(index) => occurs_at(haystack@, needle@, index as int) && forall|earlier: int|
                0 <= earlier < index ==> !occurs_at(haystack@, needle@, earlier),
            None => forall|index: int| !occurs_at(haystack@, needle@, index),
        },
{
    let haystack_length = haystack.len();
    let needle_length = needle.len();
    let mut i: usize = 0;
    while i < haystack_length
        invariant
            haystack_length == haystack@.len(),
            needle_length == needle@.len(),
            i <= haystack_length,
            forall|earlier: int| 0 <= earlier < i ==> !occurs_at(haystack@, needle@, earlier),
        decreases haystack_length - i,
    {
        if needle_length <= haystack_length - i {
            let mut j: usize = 0;
            while j < needle_length && haystack[i + j] == needle[j]
                invariant
                    haystack_length == haystack@.len(),
                    needle_length == needle@.len(),
                    i < haystack_length,
                    j <= needle_length,
                    needle_length <= haystack_length - i,
                    forall|k: int| 0 <= k < j ==> haystack@[i + k] == needle@[k],
                decreases needle_length - j,
            {
                j += 1;
            }
            if j == needle_length {
                assert(needle@ =~= haystack@.skip(i as int).subrange(0, needle@.len() as int));
                return Some(i);
            }
            assert(haystack@.skip(i as int).subrange(0, needle@.len() as int)[j as int]
                != needle@[j as int]);
        }
        i += 1;
    }
    None
}

/// `index` is the first position of `window` that holds `byte`, or the
/// length of `window` where no position does.
pub open spec fn is_first_occurrence(window: Seq<u8>, byte: u8, index: int) -> bool {
    &&& 0 <= index <= window.len()
    &&& forall|i: int| 0 <= i < index ==> window[i] != byte
    &&& index < window.len() ==> window[index] == byte
}

/// The first position of `window` that holds `byte`; the length of `window`
/// where none does.
pub open spec fn first_occurrence(window: Seq<u8>, byte: u8) -> int {
    choose|index: int| is_first_occurrence(window, byte, index)
}

/// A position that qualifies as the first occurrence is the one that
/// `first_occurrence` names.
pub proof fn lemma_first_occurrence_is(window: Seq<u8>, byte: u8, index: int)
    requires
        is_first_occurrence(window, byte, index),
    ensures
        first_occurrence(window, byte) == index,
{
    let chosen = first_occurrence(window, byte);
    assert(is_first_occurrence(window, byte, chosen));
    if chosen < index {
        assert(window[chosen] != byte);
    }
    if index < chosen {
        assert(window[index] != byte);
    }
}

/// Every window has a first occurrence of every byte, in the sense of
/// `is_first_occurrence`.
pub proof fn lemma_first_occurrence_exists(window: Seq<u8>, byte: u8)
    ensures
        is_first_occurrence(window, byte, first_occurrence(window, byte)),
    decreases window.len(),
{
    if window.len() == 0 {
        assert(is_first_occurrence(window, byte, 0));
    } else {
        let front = window.drop_last();
        lemma_first_occurrence_exists(front, byte);
        let in_front = first_occurrence(front, byte);
        assert forall|i: int| 0 <= i < in_front implies window[i] != byte by {
            assert(front[i] != byte);
        }
        if in_front < front.len() {
            assert(front[in_front] == byte);
            assert(is_first_occurrence(window, byte, in_front));
        } else if window.last() == byte {
            assert(is_first_occurrence(window, byte, in_front));
        } else {
            assert(is_first_occurrence(window, byte, window.len() as int));
        }
    }
}

/// The first position of `window` that holds `byte`, found with `find` on a
/// needle of that one byte; the length of `window` where none does.
pub fn find_byte(window: &[u8], byte: u8) -> (index: usize)
    ensures
        index == first_occurrence(window@, byte),
{
    let needle = vec![byte];
    let found = find(window, needle.as_slice());
    proof {
        assert forall|i: int| 0 <= i < window@.len() implies (occurs_at(window@, needle@, i)
            <==> window@[i] == byte) by {
            let tail = window@.skip(i);
            if occurs_at(window@, needle@, i) {
                assert(tail.subrange(0, 1)[0] == needle@[0]);
            }
            if window@[i] == byte {
                assert(needle@ =~= tail.subrange(0, 1));
            }
        }
    }
    match found {
        Some(index) => {
            proof {
                lemma_first_occurrence_is(window@, byte, index as int);
            }
            index
        },
        None => {
            proof {
                lemma_first_occurrence_is(window@, byte, window@.len() as int);
            }
            window.len()
        },
    }
}

} // verus!
