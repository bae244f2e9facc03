use vstd::prelude::*;

verus! {

/// A run of bytes that two windows share: where it starts in each, and how
/// long it is.
#[derive(Debug, Clone, Copy, PartialEq, Eq)]
pub struct CommonSubstring {
    pub first_pos: usize,
    pub second_pos: usize,
    pub length: usize,
}

impl CommonSubstring {
    /// The run is the longest common substring of `first` and `second`.
    pub open spec fn is_longest_of(self, first: Seq<u8>, second: Seq<u8>) -> bool {
        is_longest_common_substring(
            first,
            second,
            self.first_pos as int,
            self.second_pos as int,
            self.length as int,
        )
    }
}

/// `length` bytes of `first` from `first_pos` on equal `length` bytes of
/// `second` from `second_pos` on.
pub open spec fn is_common_substring(
    first: Seq<u8>,
    second: Seq<u8>,
    first_pos: int,
    second_pos: int,
    length: int,
) -> bool {
    &&& 0 <= first_pos
    &&& 0 <= second_pos
    &&& 0 <= length
    &&& first_pos + length <= first.len()
    &&& second_pos + length <= second.len()
    &&& first.subrange(first_pos, first_pos + length) == second.subrange(
        second_pos,
        second_pos + length,
    )
}

/// The run is common to both windows and no common run is longer. Among the
/// common runs of that length it starts earliest in `first`, and among
/// those earliest in `second`. Where the windows share no byte it is the
/// empty run at the start of both.
pub open spec fn is_longest_common_substring(
    first: Seq<u8>,
    second: Seq<u8>,
    first_pos: int,
    second_pos: int,
    length: int,
) -> bool {
    &&& is_common_substring(first, second, first_pos, second_pos, length)
    &&& length == 0 ==> first_pos == 0 && second_pos == 0
    &&& forall|i: int, j: int, l: int| #[trigger]
        is_common_substring(first, second, i, j, l) ==> l <= length
    &&& forall|i: int, j: int| #[trigger]
        is_common_substring(first, second, i, j, length) && length > 0 ==> first_pos < i || (
        first_pos == i && second_pos <= j)
}

/// The longest common substring of two windows as `(first_pos, second_pos,
/// length)`.
pub open spec fn longest_common_substring_of(first: Seq<u8>, second: Seq<u8>) -> (int, int, int) {
    choose|m: (int, int, int)| is_longest_common_substring(first, second, m.0, m.1, m.2)
}

/// Two runs that both qualify as the longest common substring are the same
/// run.
pub proof fn lemma_longest_common_substring_unique(
    first: Seq<u8>,
    second: Seq<u8>,
    a: (int, int, int),
    b: (int, int, int),
)
    requires
        is_longest_common_substring(first, second, a.0, a.1, a.2),
        is_longest_common_substring(first, second, b.0, b.1, b.2),
    ensures
        a == b,
{
    assert(is_common_substring(first, second, a.0, a.1, a.2));
    assert(is_common_substring(first, second, b.0, b.1, b.2));
}

/// A run that qualifies as the longest common substring is the one that
/// `longest_common_substring_of` names.
pub proof fn lemma_longest_common_substring_is(
    first: Seq<u8>,
    second: Seq<u8>,
    first_pos: int,
    second_pos: int,
    length: int,
)
    requires
        is_longest_common_substring(first, second, first_pos, second_pos, length),
    ensures
        longest_common_substring_of(first, second) == (first_pos, second_pos, length),
{
    let found = (first_pos, second_pos, length);
    assert(is_longest_common_substring(first, second, found.0, found.1, found.2));
    lemma_longest_common_substring_unique(
        first,
        second,
        longest_common_substring_of(first, second),
        found,
    );
}

/// Some common run has the greatest length among the common runs no longer
/// than `bound`.
proof fn lemma_longest_length(first: Seq<u8>, second: Seq<u8>, bound: int) -> (run: (int, int, int))
    requires
        bound >= 0,
    ensures
        is_common_substring(first, second, run.0, run.1, run.2),
        run.2 <= bound,
        forall|i: int, j: int, l: int| #[trigger]
            is_common_substring(first, second, i, j, l) && l <= bound ==> l <= run.2,
    decreases bound,
{
    if exists|i: int, j: int| is_common_substring(first, second, i, j, bound) {
        let (i, j) = choose|i: int, j: int| is_common_substring(first, second, i, j, bound);
        (i, j, bound)
    } else if bound == 0 {
        assert(first.subrange(0, 0) =~= second.subrange(0, 0));
        assert(is_common_substring(first, second, 0, 0, 0));
        (0, 0, 0)
    } else {
        lemma_longest_length(first, second, bound - 1)
    }
}

/// Among the common runs of `length` that start in `first` at `from` or
/// later, one starts earliest.
proof fn lemma_earliest_in_first(
    first: Seq<u8>,
    second: Seq<u8>,
    length: int,
    from: int,
    known: (int, int),
) -> (run: (int, int))
    requires
        is_common_substring(first, second, known.0, known.1, length),
        0 <= from <= known.0,
        forall|i: int, j: int| #[trigger]
            is_common_substring(first, second, i, j, length) ==> from <= i,
    ensures
        is_common_substring(first, second, run.0, run.1, length),
        forall|i: int, j: int| #[trigger]
            is_common_substring(first, second, i, j, length) ==> run.0 <= i,
    decreases known.0 - from,
{
    if exists|j: int| is_common_substring(first, second, from, j, length) {
        let j = choose|j: int| is_common_substring(first, second, from, j, length);
        (from, j)
    } else {
        lemma_earliest_in_first(first, second, length, from + 1, known)
    }
}

/// Among the common runs of `length` that start in `first` at `first_pos`,
/// and in `second` at `from` or later, one starts earliest in `second`.
proof fn lemma_earliest_in_second(
    first: Seq<u8>,
    second: Seq<u8>,
    length: int,
    first_pos: int,
    from: int,
    known: int,
) -> (second_pos: int)
    requires
        is_common_substring(first, second, first_pos, known, length),
        0 <= from <= known,
        forall|j: int| #[trigger]
            is_common_substring(first, second, first_pos, j, length) ==> from <= j,
    ensures
        is_common_substring(first, second, first_pos, second_pos, length),
        forall|j: int| #[trigger]
            is_common_substring(first, second, first_pos, j, length) ==> second_pos <= j,
    decreases known - from,
{
    if is_common_substring(first, second, first_pos, from, length) {
        from
    } else {
        lemma_earliest_in_second(first, second, length, first_pos, from + 1, known)
    }
}

/// Every two windows have a longest common substring.
pub proof fn lemma_longest_common_substring_exists(first: Seq<u8>, second: Seq<u8>)
    ensures
        ({
            let run = longest_common_substring_of(first, second);
            is_longest_common_substring(first, second, run.0, run.1, run.2)
        }),
{
    let longest = lemma_longest_length(first, second, first.len() as int);
    let length = longest.2;
    let found: (int, int, int) = if length == 0 {
        assert(first.subrange(0, 0) =~= second.subrange(0, 0));
        (0, 0, 0)
    } else {
        let earliest = lemma_earliest_in_first(
            first,
            second,
            length,
            0,
            (longest.0, longest.1),
        );
        let second_pos = lemma_earliest_in_second(
            first,
            second,
            length,
            earliest.0,
            0,
            earliest.1,
        );
        (earliest.0, second_pos, length)
    };
    assert(is_longest_common_substring(first, second, found.0, found.1, found.2));
}

/// The run `(first_pos, second_pos, length)` lies within `run`: on the
/// same diagonal of the two windows, and between its ends.
pub open spec fn covers(
    run: CommonSubstring,
    first_pos: int,
    second_pos: int,
    length: int,
) -> bool {
    &&& run.first_pos <= first_pos
    &&& first_pos + length <= run.first_pos + run.length
    &&& first_pos - second_pos == run.first_pos - run.second_pos
}

/// Every one of `runs` is a common run of at least one byte, and every
/// common run of at least one byte lies within one of them.
pub open spec fn are_common_runs(
    first: Seq<u8>,
    second: Seq<u8>,
    runs: Seq<CommonSubstring>,
) -> bool {
    &&& forall|k: int|
        0 <= k < runs.len() ==> (#[trigger] runs[k]).length > 0 && is_common_substring(
            first,
            second,
            runs[k].first_pos as int,
            runs[k].second_pos as int,
            runs[k].length as int,
        )
    &&& forall|i: int, j: int, l: int| #[trigger]
        is_common_substring(first, second, i, j, l) && l > 0 ==> exists|k: int|
            0 <= k < runs.len() && covers(#[trigger] runs[k], i, j, l)
}

/// Collects what `bcmp::MatchIterator` yields for the two slices with the
/// hash-matching algorithm at a minimal match length of one byte. Not
/// proved: that each match yielded is a run of at least one byte common to
/// both slices, and that the matches leave out no common run, so that every
/// common run lies within one of them. Both slices must hold a byte: on an
/// empty one the outside function subtracts from zero.
#[verifier::external_body]
pub(crate) fn common_runs(first: &[u8], second: &[u8]) -> (runs: Vec<CommonSubstring>)
    requires
        first@.len() > 0,
        second@.len() > 0,
    ensures
        are_common_runs(first@, second@, runs@),
{
    bcmp::MatchIterator::new(first, second, bcmp::AlgoSpec::HashMatch(1))
        .map(|found| CommonSubstring {
            first_pos: found.first_pos,
            second_pos: found.second_pos,
            length: found.length,
        })
        .collect()
}

/// `left` is the better answer than `right`: longer, or as long and
/// earlier in `first`, or as long, as early in `first` and no later in
/// `second`.
pub open spec fn is_preferred(left: CommonSubstring, right: CommonSubstring) -> bool {
    ||| left.length > right.length
    ||| left.length == right.length && left.first_pos < right.first_pos
    ||| left.length == right.length && left.first_pos == right.first_pos && left.second_pos
        <= right.second_pos
}

/// The longest run of bytes that the two windows share; of several, the
/// one that starts earliest in `first`, then earliest in `second`. The
/// empty run at the start of both where they share no byte, as where one
/// of them is empty.
pub fn longest_common_substring(first: &[u8], second: &[u8]) -> (found: CommonSubstring)
    ensures
        found.is_longest_of(first@, second@),
{
    let mut found = CommonSubstring { first_pos: 0, second_pos: 0, length: 0 };
    assert(first@.subrange(0, 0) =~= second@.subrange(0, 0));
    if first.len() == 0 || second.len() == 0 {
        return found;
    }
    let runs = common_runs(first, second);
    let mut k: usize = 0;
    while k < runs.len()
        invariant
            k <= runs@.len(),
            are_common_runs(first@, second@, runs@),
            is_common_substring(
                first@,
                second@,
                found.first_pos as int,
                found.second_pos as int,
                found.length as int,
            ),
            found.length == 0 ==> found.first_pos == 0 && found.second_pos == 0,
            forall|seen: int| 0 <= seen < k ==> is_preferred(found, #[trigger] runs@[seen]),
        decreases runs@.len() - k,
    {
        let run = runs[k];
        if run.length > found.length || (run.length == found.length && (run.first_pos
            < found.first_pos || (run.first_pos == found.first_pos && run.second_pos
            < found.second_pos))) {
            found = run;
        }
        k += 1;
    }
    proof {
        assert forall|i: int, j: int, l: int| #[trigger]
            is_common_substring(first@, second@, i, j, l) implies l <= found.length by {
            if l > 0 {
                let within = choose|within: int|
                    0 <= within < runs@.len() && covers(#[trigger] runs@[within], i, j, l);
                assert(is_preferred(found, runs@[within]));
            }
        }
        assert forall|i: int, j: int| #[trigger]
            is_common_substring(first@, second@, i, j, found.length as int) && found.length
                > 0 implies found.first_pos < i || (found.first_pos == i && found.second_pos
            <= j) by {
            let within = choose|within: int|
                0 <= within < runs@.len() && covers(
                    #[trigger] runs@[within],
                    i,
                    j,
                    found.length as int,
                );
            assert(is_preferred(found, runs@[within]));
        }
    }
    found
}

} // verus!
