use crate::error::BuildError;
use std::ops::RangeInclusive;
use vstd::prelude::*;

verus! {

/// `char::from_u32` gives the character with the given code, and `None` for
/// a surrogate or a number past the last code point.
pub assume_specification[ char::from_u32 ](i: u32) -> (c: Option<char>)
    ensures
        c == (if i <= 0xD7FF || (0xE000 <= i && i <= 0x10FFFF) {
            Some(i as char)
        } else {
            None::<char>
        }),
;

/// A run of consecutive characters, both ends included.
pub struct UnicodeCodeBlock {
    start: char,
    end: char,
}

/// Whether the surrogate codes, which are no characters, lie between the two
/// characters.
pub open spec fn spans_surrogates(start: char, end: char) -> bool {
    start as int <= 0xD7FF && 0xE000 <= end as int
}

/// The number of characters from `start` to `end`, both included.
pub open spec fn chars_between(start: char, end: char) -> int {
    if end < start {
        0
    } else if spans_surrogates(start, end) {
        end as int - start as int + 1 - 0x800
    } else {
        end as int - start as int + 1
    }
}

/// The character `i` places after `start`.
pub open spec fn nth_char(start: char, i: int) -> char {
    if start as int <= 0xD7FF && start as int + i > 0xD7FF {
        (start as int + i + 0x800) as char
    } else {
        (start as int + i) as char
    }
}

impl UnicodeCodeBlock {
    /// The first character of the block.
    pub closed spec fn first(self) -> char {
        self.start
    }

    /// The last character of the block.
    pub closed spec fn last(self) -> char {
        self.end
    }

    /// The end does not come before the start.
    pub open spec fn well_formed(self) -> bool {
        self.first() <= self.last()
    }

    #[verifier::type_invariant]
    spec fn ordered(self) -> bool {
        self.well_formed()
    }

    /// The number of code points that the block covers.
    pub open spec fn size(self) -> int {
        self.last() as int - self.first() as int + 1
    }

    /// The characters of the block, in ascending order.
    pub open spec fn chars(self) -> Seq<char> {
        Seq::new(
            chars_between(self.first(), self.last()) as nat,
            |i: int| nth_char(self.first(), i),
        )
    }

    /// A block from `start` to `end`, both included; an error where `end`
    /// comes before `start`.
    pub fn new(start: char, end: char) -> (block: Result<UnicodeCodeBlock, BuildError>)
        ensures
            match block {
                Ok(b) => start <= end && b.first() == start && b.last() == end && b.well_formed(),
                Err(e) => end < start && e == BuildError::InvalidRange,
            },
    {
        if end < start {
            Err(BuildError::InvalidRange)
        } else {
            Ok(UnicodeCodeBlock { start, end })
        }
    }

    /// The block as a range of characters.
    pub fn range(&self) -> (r: RangeInclusive<char>)
        ensures
            r@.start == self.first(),
            r@.end == self.last(),
            !r@.exhausted,
    {
        RangeInclusive::new(self.start, self.end)
    }

    /// Number of code points covered by the block.
    pub fn block_size(&self) -> (n: usize)
        ensures
            n == self.size(),
            n >= 1,
    {
        proof {
            use_type_invariant(self);
        }
        self.end as usize - self.start as usize + 1
    }

    /// The characters of the block, in ascending order.
    pub fn to_chars(&self) -> (v: Vec<char>)
        ensures
            v@ == self.chars(),
    {
        proof {
            use_type_invariant(self);
        }
        let mut v: Vec<char> = Vec::new();
        self.append_chars(&mut v);
        assert(v@ =~= self.chars());
        v
    }

    /// Appends the characters of the block, in ascending order.
    pub fn append_chars(&self, out: &mut Vec<char>)
        ensures
            final(out)@ == old(out)@ + self.chars(),
    {
        proof {
            use_type_invariant(self);
        }
        let ghost before = out@;
        let first: u32 = self.start as u32;
        let last: u32 = self.end as u32;
        let mut code: u32 = first;
        while code <= last
            invariant
                first == self.start as u32,
                last == self.end as u32,
                first <= code,
                code <= last + 1 || (code == 0xE000 && last == 0xD7FF),
                last <= 0x10FFFF,
                code <= 0xD7FF || 0xE000 <= code,
                out@.len() == before.len() + (if code > last {
                    chars_between(self.start, self.end)
                } else {
                    chars_between(self.start, code as char) - 1
                }),
                forall|i: int| 0 <= i < before.len() ==> out@[i] == before[i],
                forall|i: int|
                    before.len() <= i < out@.len() ==> out@[i] == nth_char(self.start, i - before.len()),
            decreases 0x110000 - code,
        {
            match char::from_u32(code) {
                Some(c) => {
                    out.push(c);
                },
                None => {},
            }
            code = if code == 0xD7FF {
                0xE000
            } else {
                code + 1
            };
        }
        assert(out@ =~= before + self.chars());
    }
}

/// The characters of the blocks, block after block.
pub open spec fn all_chars(blocks: Seq<UnicodeCodeBlock>) -> Seq<char>
    decreases blocks.len(),
{
    if blocks.len() == 0 {
        Seq::empty()
    } else {
        all_chars(blocks.drop_last()) + blocks.last().chars()
    }
}

/// The sizes of the blocks, added up.
pub open spec fn total_block_size(blocks: Seq<UnicodeCodeBlock>) -> int
    decreases blocks.len(),
{
    if blocks.len() == 0 {
        0
    } else {
        total_block_size(blocks.drop_last()) + blocks.last().size()
    }
}

/// The place of the character `c` in the run of characters that starts at
/// `start`.
pub open spec fn place_of(start: char, c: char) -> int {
    if start as int <= 0xD7FF && 0xE000 <= c as int {
        c as int - start as int - 0x800
    } else {
        c as int - start as int
    }
}

/// The characters of a block stand in strictly ascending order, and they are
/// the characters from its first to its last: each of those at its place,
/// and no other.
pub proof fn lemma_chars_ascending_and_complete(block: UnicodeCodeBlock)
    requires
        block.well_formed(),
    ensures
        forall|i: int, j: int|
            0 <= i < j < block.chars().len() ==> (#[trigger] block.chars()[i]) < (
            #[trigger] block.chars()[j]),
        forall|i: int|
            0 <= i < block.chars().len() ==> block.first() <= (#[trigger] block.chars()[i])
                <= block.last(),
        forall|c: char|
            block.first() <= c <= block.last() ==> 0 <= (#[trigger] place_of(block.first(), c))
                < block.chars().len() && block.chars()[place_of(block.first(), c)] == c,
{
    assert forall|c: char| block.first() <= c <= block.last() implies 0 <= (#[trigger] place_of(
        block.first(),
        c,
    )) < block.chars().len() && block.chars()[place_of(block.first(), c)] == c by {
        vstd::utf8::char_is_scalar(c);
        vstd::utf8::char_is_scalar(block.first());
        vstd::utf8::char_is_scalar(block.last());
        let i = place_of(block.first(), c);
        assert(0 <= i < block.chars().len());
        vstd::utf8::char_u32_cast(c, c as u32);
    }
}

/// A block that does not reach across the surrogate codes holds as many
/// characters as its size says, and the character at place `i` has the code
/// of the first character plus `i`.
pub proof fn lemma_chars_match_size(block: UnicodeCodeBlock)
    requires
        block.well_formed(),
        !spans_surrogates(block.first(), block.last()),
    ensures
        block.chars().len() == block.size(),
        forall|i: int|
            0 <= i < block.size() ==> (#[trigger] block.chars()[i]) as int == block.first() as int
                + i,
{
}

/// The block of the CJK unified ideographs, U+4E00 to U+9FFF.
pub fn cjk_unified_ideographs() -> (block: UnicodeCodeBlock)
    ensures
        block.first() == '\u{4E00}',
        block.last() == '\u{9FFF}',
        block.well_formed(),
{
    UnicodeCodeBlock { start: '\u{4E00}', end: '\u{9FFF}' }
}

/// The block of the CJK radicals supplement, U+2E80 to U+2EF3. It takes in
/// U+2E9A, to which no character is assigned.
pub fn cjk_radicals_supplement() -> (block: UnicodeCodeBlock)
    ensures
        block.first() == '\u{2E80}',
        block.last() == '\u{2EF3}',
        block.well_formed(),
{
    UnicodeCodeBlock { start: '\u{2E80}', end: '\u{2EF3}' }
}

} // verus!
