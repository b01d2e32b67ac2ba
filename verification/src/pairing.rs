use crate::mapping::{first_match, glyph_index, lemma_first_match, span_holds, total_size};
use crate::unicode::{
    all_chars, lemma_chars_ascending_and_complete, lemma_chars_match_size, place_of,
    spans_surrogates, UnicodeCodeBlock,
};
use vstd::prelude::*;

verus! {

/// The runs of characters of the blocks, in the same order.
pub open spec fn block_spans(blocks: Seq<UnicodeCodeBlock>) -> Seq<(char, char)> {
    Seq::new(blocks.len(), |i: int| (blocks[i].first(), blocks[i].last()))
}

/// Blocks that are well formed and of which none reaches across the
/// surrogate codes.
pub open spec fn plain_blocks(blocks: Seq<UnicodeCodeBlock>) -> bool {
    forall|i: int|
        0 <= i < blocks.len() ==> (#[trigger] blocks[i]).well_formed() && !spans_surrogates(
            blocks[i].first(),
            blocks[i].last(),
        )
}

/// The blocks hold as many characters as the sizes of their runs add up to.
pub proof fn lemma_all_chars_len(blocks: Seq<UnicodeCodeBlock>)
    requires
        plain_blocks(blocks),
    ensures
        all_chars(blocks).len() == total_size(block_spans(blocks)),
    decreases blocks.len(),
{
    if blocks.len() > 0 {
        assert(block_spans(blocks).drop_last() == block_spans(blocks.drop_last()));
        lemma_all_chars_len(blocks.drop_last());
        lemma_chars_match_size(blocks.last());
    }
}

/// A character that the run of block `j` holds stands among the characters
/// of the blocks up to that one.
proof fn lemma_held_char_occurs(blocks: Seq<UnicodeCodeBlock>, j: int, c: char) -> (q: int)
    requires
        plain_blocks(blocks),
        0 <= j < blocks.len(),
        span_holds(block_spans(blocks)[j], c),
    ensures
        0 <= q < all_chars(blocks).len(),
        all_chars(blocks)[q] == c,
    decreases blocks.len(),
{
    let init = blocks.drop_last();
    if j == blocks.len() - 1 {
        lemma_chars_ascending_and_complete(blocks.last());
        all_chars(init).len() + place_of(blocks.last().first(), c)
    } else {
        assert(block_spans(init)[j] == block_spans(blocks)[j]);
        lemma_held_char_occurs(init, j, c)
    }
}

/// Each character of the blocks lies in the run of one of them.
proof fn lemma_char_is_held(blocks: Seq<UnicodeCodeBlock>, p: int) -> (j: int)
    requires
        plain_blocks(blocks),
        0 <= p < all_chars(blocks).len(),
    ensures
        0 <= j < blocks.len(),
        span_holds(block_spans(blocks)[j], all_chars(blocks)[p]),
    decreases blocks.len(),
{
    let init = blocks.drop_last();
    if p < all_chars(init).len() {
        let j = lemma_char_is_held(init, p);
        assert(block_spans(init)[j] == block_spans(blocks)[j]);
        j
    } else {
        lemma_chars_ascending_and_complete(blocks.last());
        blocks.len() - 1
    }
}

/// A mapping over the runs of some blocks gives each of their characters,
/// where it stands for the first time, its position among those characters:
/// the position of its cell in an atlas built from the same blocks. This is
/// stated of blocks that do not reach across the surrogate codes.
pub proof fn lemma_index_is_position(blocks: Seq<UnicodeCodeBlock>, default: int, p: int)
    requires
        plain_blocks(blocks),
        0 <= p < all_chars(blocks).len(),
        forall|q: int| 0 <= q < p ==> all_chars(blocks)[q] != all_chars(blocks)[p],
    ensures
        first_match(block_spans(blocks), all_chars(blocks)[p]) < blocks.len(),
        glyph_index(block_spans(blocks), default, all_chars(blocks)[p]) == p,
    decreases blocks.len(),
{
    let init = blocks.drop_last();
    let spans = block_spans(blocks);
    let c = all_chars(blocks)[p];
    let n0 = all_chars(init).len() as int;
    assert(spans.drop_last() == block_spans(init));
    assert(all_chars(blocks) == all_chars(init) + blocks.last().chars());
    if p < n0 {
        assert forall|q: int| 0 <= q < p implies all_chars(init)[q] != all_chars(init)[p] by {
            assert(all_chars(blocks)[q] == all_chars(init)[q]);
        }
        lemma_index_is_position(init, default, p);
        assert(all_chars(init)[p] == c);
        lemma_first_match(spans.drop_last(), c);
        let m = first_match(spans, c);
        assert(m == first_match(spans.drop_last(), c));
        assert(spans.take(m) == spans.drop_last().take(m));
        assert(spans[m] == spans.drop_last()[m]);
    } else {
        lemma_first_match(spans.drop_last(), c);
        let earlier = first_match(spans.drop_last(), c);
        if earlier < init.len() {
            let q = lemma_held_char_occurs(init, earlier, c);
            assert(all_chars(blocks)[q] == c);
        }
        lemma_chars_ascending_and_complete(blocks.last());
        lemma_chars_match_size(blocks.last());
        lemma_all_chars_len(init);
        assert(spans.take(blocks.len() - 1) == spans.drop_last());
        assert(c == blocks.last().chars()[p - n0]);
    }
}

} // verus!
