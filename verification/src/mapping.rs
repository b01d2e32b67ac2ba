use std::ops::RangeInclusive;
use vstd::prelude::*;

verus! {

/// Reads the lower bound of a range through `RangeInclusive::start`, which
/// hands out the bound that the range was made with.
#[verifier::external_body]
fn range_first(range: &RangeInclusive<char>) -> (first: char)
    ensures
        first == range@.start,
{
    *range.start()
}

/// Reads the upper bound of a range through `RangeInclusive::end`, which
/// hands out the bound that the range was made with.
#[verifier::external_body]
fn range_last(range: &RangeInclusive<char>) -> (last: char)
    ensures
        last == range@.end,
{
    *range.end()
}

/// The number of code points of the run of characters from `span.0` to
/// `span.1`.
pub open spec fn span_size(span: (char, char)) -> int {
    span.1 as int - span.0 as int + 1
}

/// Whether the run of characters from `span.0` to `span.1` holds `c`.
pub open spec fn span_holds(span: (char, char), c: char) -> bool {
    span.0 <= c <= span.1
}

/// The runs that a list of ranges stands for, in the same order.
pub open spec fn spans_of(ranges: Seq<RangeInclusive<char>>) -> Seq<(char, char)> {
    Seq::new(ranges.len(), |i: int| (ranges[i]@.start, ranges[i]@.end))
}

/// The number of code points of all the runs together.
pub open spec fn total_size(spans: Seq<(char, char)>) -> int
    decreases spans.len(),
{
    if spans.len() == 0 {
        0
    } else {
        total_size(spans.drop_last()) + span_size(spans.last())
    }
}

/// The position of the first run that holds `c`; the number of runs where
/// none does.
pub open spec fn first_match(spans: Seq<(char, char)>, c: char) -> int
    decreases spans.len(),
{
    if spans.len() == 0 {
        0
    } else {
        let earlier = first_match(spans.drop_last(), c);
        if earlier < spans.len() - 1 {
            earlier
        } else if span_holds(spans.last(), c) {
            spans.len() - 1
        } else {
            spans.len() as int
        }
    }
}

/// The glyph index of `c`: its place in the first run that holds it, counted
/// on from the sizes of the runs before that one; `default` where no run
/// holds it.
pub open spec fn glyph_index(spans: Seq<(char, char)>, default: int, c: char) -> int {
    let m = first_match(spans, c);
    if m < spans.len() {
        total_size(spans.take(m)) + (c as int - spans[m].0 as int)
    } else {
        default
    }
}

/// Ranges that a mapping can work with: each untouched by iteration and
/// with its end not before its start, and a total size that `usize` holds.
pub open spec fn ranges_usable(ranges: Seq<RangeInclusive<char>>) -> bool {
    &&& forall|i: int|
        0 <= i < ranges.len() ==> !(#[trigger] ranges[i])@.exhausted && ranges[i]@.start
            <= ranges[i]@.end
    &&& total_size(spans_of(ranges)) <= usize::MAX
}

/// `first_match` is the least position of a run that holds the character.
pub proof fn lemma_first_match(spans: Seq<(char, char)>, c: char)
    ensures
        0 <= first_match(spans, c) <= spans.len(),
        first_match(spans, c) < spans.len() ==> span_holds(spans[first_match(spans, c)], c),
        forall|j: int| 0 <= j < first_match(spans, c) ==> !span_holds(#[trigger] spans[j], c),
    decreases spans.len(),
{
    if spans.len() > 0 {
        lemma_first_match(spans.drop_last(), c);
        assert forall|j: int| 0 <= j < first_match(spans, c) implies !span_holds(#[trigger] spans[j], c) by {
            if j < spans.len() - 1 {
                assert(spans[j] == spans.drop_last()[j]);
            }
        }
        let m = first_match(spans, c);
        if m < spans.len() - 1 {
            assert(spans[m] == spans.drop_last()[m]);
        }
    }
}

/// The sizes of the first `n` runs add up to no more than those of all, and
/// leave room for the next run, where no run ends before it starts.
pub proof fn lemma_total_size_prefix(spans: Seq<(char, char)>, n: int)
    requires
        0 <= n <= spans.len(),
        forall|i: int| 0 <= i < spans.len() ==> (#[trigger] spans[i]).0 <= spans[i].1,
    ensures
        0 <= total_size(spans.take(n)) <= total_size(spans),
        n < spans.len() ==> total_size(spans.take(n + 1)) == total_size(spans.take(n))
            + span_size(spans[n]),
        n < spans.len() ==> total_size(spans.take(n)) + span_size(spans[n]) <= total_size(spans),
    decreases spans.len() - n,
{
    if n == spans.len() {
        assert(spans.take(n) == spans);
        lemma_total_size_nonnegative(spans);
    } else {
        assert(spans.take(n + 1).drop_last() == spans.take(n));
        assert(spans.take(n + 1).last() == spans[n]);
        lemma_total_size_prefix(spans, n + 1);
        lemma_total_size_nonnegative(spans.take(n));
    }
}

proof fn lemma_total_size_nonnegative(spans: Seq<(char, char)>)
    requires
        forall|i: int| 0 <= i < spans.len() ==> (#[trigger] spans[i]).0 <= spans[i].1,
    ensures
        0 <= total_size(spans),
    decreases spans.len(),
{
    if spans.len() > 0 {
        assert forall|i: int| 0 <= i < spans.drop_last().len() implies (
        #[trigger] spans.drop_last()[i]).0 <= spans.drop_last()[i].1 by {
            assert(spans.drop_last()[i] == spans[i]);
        }
        lemma_total_size_nonnegative(spans.drop_last());
    }
}

/// Maps a character to the index of its glyph, by the ranges of characters
/// that an atlas was built from.
pub struct RangeGlyphMapping<const SIZE: usize> {
    ranges: [RangeInclusive<char>; SIZE],
    default_idx: usize,
}

impl<const SIZE: usize> RangeGlyphMapping<SIZE> {
    /// The runs of characters of the mapping, in order.
    pub closed spec fn spans(self) -> Seq<(char, char)> {
        spans_of(self.ranges@)
    }

    /// The index given to a character that no run holds.
    pub closed spec fn default_index(self) -> int {
        self.default_idx as int
    }

    /// The ranges of the mapping are usable.
    pub closed spec fn well_formed(self) -> bool {
        ranges_usable(self.ranges@)
    }

    proof fn lemma_spans(self)
        requires
            self.well_formed(),
        ensures
            self.spans().len() == SIZE,
            total_size(self.spans()) <= usize::MAX,
            forall|i: int|
                0 <= i < SIZE ==> (#[trigger] self.spans()[i]).0 == self.ranges@[i]@.start
                    && self.spans()[i].1 == self.ranges@[i]@.end && self.spans()[i].0
                    <= self.spans()[i].1,
    {
        assert(self.ranges@.len() == SIZE);
        assert forall|i: int| 0 <= i < SIZE implies (#[trigger] self.spans()[i]).0
            <= self.spans()[i].1 by {
            assert(!self.ranges@[i]@.exhausted);
        }
    }

    /// A mapping over `ranges`, with `default_idx` for the characters that
    /// none of them holds.
    pub fn new(ranges: [RangeInclusive<char>; SIZE], default_idx: usize) -> (map: Self)
        requires
            ranges_usable(ranges@),
            default_idx <= total_size(spans_of(ranges@)),
        ensures
            map.well_formed(),
            map.spans() == spans_of(ranges@),
            map.default_index() == default_idx,
    {
        Self { ranges, default_idx }
    }

    /// A mapping over `ranges` with nothing asked of them or of
    /// `default_idx`.
    pub fn new_unchecked(ranges: [RangeInclusive<char>; SIZE], default_idx: usize) -> (map: Self)
        ensures
            map.well_formed() == ranges_usable(ranges@),
            map.spans() == spans_of(ranges@),
            map.default_index() == default_idx,
    {
        Self { ranges, default_idx }
    }

    /// How many characters the ranges cover, all together.
    pub fn chars_in_range(&self) -> (n: usize)
        requires
            self.well_formed(),
        ensures
            n == total_size(self.spans()),
    {
        let ghost spans = self.spans();
        proof {
            self.lemma_spans();
        }
        let mut n: usize = 0;
        let mut i: usize = 0;
        while i < SIZE
            invariant
                self.well_formed(),
                spans == self.spans(),
                spans.len() == SIZE,
                i <= SIZE,
                n == total_size(spans.take(i as int)),
            decreases SIZE - i,
        {
            let range = &self.ranges[i];
            proof {
                self.lemma_spans();
                assert(spans[i as int] == (range@.start, range@.end));
                lemma_total_size_prefix(spans, i as int);
            }
            let first: char = range_first(range);
            let last: char = range_last(range);
            assert(spans[i as int] == (first, last));
            n = n + (last as usize - first as usize + 1);
            i = i + 1;
        }
        assert(spans.take(SIZE as int) == spans);
        n
    }

    /// The index of the glyph of `chr`.
    pub fn index(&self, chr: char) -> (at: usize)
        requires
            self.well_formed(),
        ensures
            at == glyph_index(self.spans(), self.default_index(), chr),
    {
        let ghost spans = self.spans();
        proof {
            self.lemma_spans();
        }
        let mut offset: usize = 0;
        let mut i: usize = 0;
        while i < SIZE
            invariant
                self.well_formed(),
                spans == self.spans(),
                spans.len() == SIZE,
                i <= SIZE,
                offset == total_size(spans.take(i as int)),
                forall|j: int| 0 <= j < i ==> !span_holds(#[trigger] spans[j], chr),
            decreases SIZE - i,
        {
            let range = &self.ranges[i];
            let first: char = range_first(range);
            let last: char = range_last(range);
            proof {
                self.lemma_spans();
                assert(spans[i as int] == (first, last));
                lemma_total_size_prefix(spans, i as int);
                lemma_first_match(spans, chr);
            }
            if first <= chr && chr <= last {
                assert(span_holds(spans[i as int], chr));
                return offset + (chr as usize - first as usize);
            }
            offset = offset + (last as usize - first as usize + 1);
            i = i + 1;
        }
        proof {
            lemma_first_match(spans, chr);
        }
        self.default_idx
    }
}

} // verus!

