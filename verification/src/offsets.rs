//! How the grapheme ranges of a chunk sequence lie to each other: no range is
//! reversed, and none begins before the one before it has stopped.

use crate::splitter::{
    group_at, group_count, group_end, grouped, lemma_group_count_positive, split_spec, word_chunk,
    word_chunks, word_start, word_stop, ChunkView,
};
use crate::words::words;
use vstd::prelude::*;

verus! {

/// Every chunk starts at or before its stop, and stops at or before the start
/// of the chunk after it.
pub open spec fn offsets_ordered(chunks: Seq<ChunkView>) -> bool {
    &&& forall|i: int| 0 <= i < chunks.len() ==> (#[trigger] chunks[i]).start <= chunks[i].stop
    &&& forall|i: int|
        0 <= i < chunks.len() - 1 ==> (#[trigger] chunks[i]).stop <= chunks[i + 1].start
}

/// In an ordered sequence a later chunk neither starts nor stops before an
/// earlier one, and no chunk stops before an earlier one starts.
pub proof fn lemma_ordered_between(chunks: Seq<ChunkView>, a: int, b: int)
    requires
        offsets_ordered(chunks),
        0 <= a <= b < chunks.len(),
    ensures
        chunks[a].start <= chunks[b].start,
        chunks[a].stop <= chunks[b].stop,
        chunks[a].start <= chunks[b].stop,
    decreases b - a,
{
    if a < b {
        lemma_ordered_between(chunks, a, b - 1);
        assert(chunks[b - 1].stop <= chunks[b - 1 + 1].start);
        assert(chunks[b].start <= chunks[b].stop);
    } else {
        assert(chunks[a].start <= chunks[a].stop);
    }
}

/// The chunks of single words are ordered.
pub proof fn lemma_word_chunks_ordered(s: Seq<char>)
    ensures
        offsets_ordered(word_chunks(s)),
{
    let chunks = word_chunks(s);
    assert forall|i: int| 0 <= i < chunks.len() implies (#[trigger] chunks[i]).start
        <= chunks[i].stop by {
        assert(chunks[i] == word_chunk(s, i));
    }
    assert forall|i: int| 0 <= i < chunks.len() - 1 implies (#[trigger] chunks[i]).stop
        <= chunks[i + 1].start by {
        assert(chunks[i] == word_chunk(s, i));
        assert(chunks[i + 1] == word_chunk(s, i + 1));
        assert(word_start(s, words(s), i + 1) >= word_stop(s, words(s), i));
    }
}

/// Group `j` of `len` chunks in runs of `size` is not empty and lies inside
/// the sequence; every group but the last is a full run.
pub proof fn lemma_group_bounds(len: nat, size: nat, j: int)
    requires
        size >= 1,
        0 <= j < group_count(len, size),
    ensures
        0 <= j * size < group_end(len, size, j) <= len,
        j + 1 < group_count(len, size) ==> group_end(len, size, j) == (j + 1) * size,
{
    if len == 0 {
        assert(group_count(0, size) == 0) by (nonlinear_arith)
            requires
                size >= 1,
                group_count(0, size) == (0 + size - 1) / (size as int),
        ;
    }
    lemma_group_count_positive(len, size);
    let count = group_count(len, size);
    assert(0 <= j * size && j * size <= (count - 1) * size && (j + 1) * size == j * size + size)
        by (nonlinear_arith)
        requires
            0 <= j <= count - 1,
            size >= 1,
    ;
    if j + 1 < count {
        assert((j + 1) * size <= (count - 1) * size) by (nonlinear_arith)
            requires
                j + 1 <= count - 1,
                size >= 1,
        ;
    }
}

/// Grouping keeps the order of the ranges.
pub proof fn lemma_grouped_ordered(base: Seq<ChunkView>, size: nat)
    requires
        offsets_ordered(base),
        size >= 1,
    ensures
        offsets_ordered(grouped(base, size)),
{
    let groups = grouped(base, size);
    assert forall|j: int| 0 <= j < groups.len() implies (#[trigger] groups[j]).start
        <= groups[j].stop by {
        lemma_group_bounds(base.len(), size, j);
        assert(groups[j] == group_at(base, size, j));
        lemma_ordered_between(base, j * size, group_end(base.len(), size, j) - 1);
    }
    assert forall|j: int| 0 <= j < groups.len() - 1 implies (#[trigger] groups[j]).stop
        <= groups[j + 1].start by {
        lemma_group_bounds(base.len(), size, j);
        lemma_group_bounds(base.len(), size, j + 1);
        assert(groups[j] == group_at(base, size, j));
        assert(groups[j + 1] == group_at(base, size, j + 1));
        let last = (j + 1) * size - 1;
        assert(base[last].stop <= base[last + 1].start);
    }
}

/// Whatever the text and the chunk size, the ranges of the chunks that
/// splitting gives are ordered: each chunk stops at or before the start of
/// the next.
pub proof fn lemma_split_offsets_ordered(text: Seq<char>, chunk_size: nat)
    ensures
        offsets_ordered(split_spec(text, chunk_size)),
{
    if words(text).len() == 0 {
    } else if chunk_size <= 1 {
        lemma_word_chunks_ordered(text);
    } else {
        lemma_word_chunks_ordered(text);
        lemma_grouped_ordered(word_chunks(text), chunk_size);
    }
}

} // verus!
