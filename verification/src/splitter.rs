//! The chunking engine: text in, an ordered, never empty sequence of chunks
//! out, each with the range of grapheme clusters it covers.

use crate::offsets::{lemma_group_bounds, lemma_split_offsets_ordered, offsets_ordered};
use crate::round_trip::{clusters_follow_words, lemma_round_trip, trimmed};
use crate::unicode::{
    clusters_spell, collect_chars, count_graphemes, grapheme_len, grapheme_slice,
    string_from_chars,
};
use crate::words::{
    lemma_skip_whitespace_bounds, lemma_skip_word_bounds, skip_whitespace, skip_whitespace_from,
    skip_word, skip_word_from, word_spans, word_text, words, Span,
};
use vstd::prelude::*;
use vstd::slice::slice_subrange;
use vstd::string::StringExecFns;

verus! {

/// One or more consecutive words shown together. The offsets count grapheme
/// clusters from the first word of the text and bound the half-open range
/// `[start_offset, stop_offset)`.
#[derive(Debug, PartialEq, Eq, Clone)]
pub struct TextChunk {
    pub chunk: String,
    pub start_offset: usize,
    pub stop_offset: usize,
}

/// What a `TextChunk` stands for: its characters and its grapheme range.
pub struct ChunkView {
    pub text: Seq<char>,
    pub start: nat,
    pub stop: nat,
}

impl View for TextChunk {
    type V = ChunkView;

    open spec fn view(&self) -> ChunkView {
        ChunkView {
            text: self.chunk@,
            start: self.start_offset as nat,
            stop: self.stop_offset as nat,
        }
    }
}

/// The views of `chunks`, in order.
pub open spec fn chunk_views(chunks: Seq<TextChunk>) -> Seq<ChunkView> {
    Seq::new(chunks.len(), |i: int| chunks[i]@)
}

/// The whitespace between word `k - 1` and word `k` of `s`.
pub open spec fn gap_text(s: Seq<char>, spans: Seq<Span>, k: int) -> Seq<char> {
    s.subrange(spans[k - 1].end, spans[k].start)
}

/// The grapheme offset at which word `k` stops: the clusters of every word and
/// of every gap up to and including word `k`, each counted on its own.
pub open spec fn word_stop(s: Seq<char>, spans: Seq<Span>, k: int) -> nat
    decreases k,
{
    if k < 0 {
        0
    } else if k == 0 {
        grapheme_len(word_text(s, spans[0]))
    } else {
        word_stop(s, spans, k - 1) + grapheme_len(gap_text(s, spans, k)) + grapheme_len(
            word_text(s, spans[k]),
        )
    }
}

/// The grapheme offset at which word `k` starts: 0 for the first word, else
/// the stop of the word before it plus the clusters of the gap between them.
pub open spec fn word_start(s: Seq<char>, spans: Seq<Span>, k: int) -> nat {
    if k <= 0 {
        0
    } else {
        word_stop(s, spans, k - 1) + grapheme_len(gap_text(s, spans, k))
    }
}

/// The chunk that holds word `k` of `s` alone.
pub open spec fn word_chunk(s: Seq<char>, k: int) -> ChunkView {
    ChunkView {
        text: word_text(s, words(s)[k]),
        start: word_start(s, words(s), k),
        stop: word_stop(s, words(s), k),
    }
}

/// One chunk per word of `s`, in order.
pub open spec fn word_chunks(s: Seq<char>) -> Seq<ChunkView> {
    Seq::new(words(s).len(), |k: int| word_chunk(s, k))
}

/// `words` divided by `size`, rounded up.
pub open spec fn group_count(words: nat, size: nat) -> nat {
    if size == 0 {
        0
    } else {
        ((words + size - 1) / (size as int)) as nat
    }
}

/// The position after the last chunk of group `j`.
pub open spec fn group_end(len: nat, size: nat, j: int) -> int {
    if (j + 1) * size < len {
        (j + 1) * size
    } else {
        len as int
    }
}

/// The texts of chunks `first ..= last` joined by one space each.
pub open spec fn joined_text(base: Seq<ChunkView>, first: int, last: int) -> Seq<char>
    decreases last - first,
{
    if last <= first {
        base[first].text
    } else {
        joined_text(base, first, last - 1) + seq![' '] + base[last].text
    }
}

/// Group `j` of `base` in runs of `size`: the texts joined, from the start of
/// the first to the stop of the last.
pub open spec fn group_at(base: Seq<ChunkView>, size: nat, j: int) -> ChunkView {
    let first = j * size;
    let last = group_end(base.len(), size, j) - 1;
    ChunkView {
        text: joined_text(base, first, last),
        start: base[first].start,
        stop: base[last].stop,
    }
}

/// `base` in runs of `size` chunks; the last run may be shorter.
pub open spec fn grouped(base: Seq<ChunkView>, size: nat) -> Seq<ChunkView> {
    Seq::new(group_count(base.len(), size), |j: int| group_at(base, size, j))
}

/// The chunk that stands for a text without words.
pub open spec fn empty_chunk() -> ChunkView {
    ChunkView { text: Seq::empty(), start: 0, stop: 0 }
}

/// What `split` returns for `text` and `chunk_size`.
pub open spec fn split_spec(text: Seq<char>, chunk_size: nat) -> Seq<ChunkView> {
    if words(text).len() == 0 {
        seq![empty_chunk()]
    } else if chunk_size <= 1 {
        word_chunks(text)
    } else {
        grouped(word_chunks(text), chunk_size)
    }
}

/// One chunk per word of `chars`, with its grapheme offsets. No offset lies
/// beyond the number of characters, and the clusters of each word spell it.
pub fn split_words(chars: &Vec<char>) -> (base: Vec<TextChunk>)
    ensures
        chunk_views(base@) == word_chunks(chars@),
        forall|k: int| 0 <= k < base.len() ==> (#[trigger] base[k]).stop_offset <= chars.len(),
        forall|k: int|
            0 <= k < words(chars@).len() ==> clusters_spell(
                word_text(chars@, #[trigger] words(chars@)[k]),
            ),
{
    let ghost s = chars@;
    let ghost mut done: Seq<Span> = Seq::empty();
    let mut base: Vec<TextChunk> = Vec::new();
    let mut from: usize = 0;
    let mut stop: usize = 0;
    let mut start = skip_whitespace_from(chars, 0);
    assert(words(s) =~= done + word_spans(s, 0));
    while start < chars.len()
        invariant
            s == chars@,
            from <= start <= chars.len(),
            start == skip_whitespace(s, from as int),
            done.len() == base.len(),
            words(s) == done + word_spans(s, from as int),
            base.len() == 0 ==> from == 0,
            base.len() > 0 ==> from == done[base.len() - 1].end,
            stop == word_stop(s, words(s), base.len() - 1),
            stop <= from,
            forall|k: int| 0 <= k < base.len() ==> (#[trigger] base[k])@ == word_chunk(s, k),
            forall|k: int| 0 <= k < base.len() ==> (#[trigger] base[k]).stop_offset <= from,
            forall|k: int|
                0 <= k < base.len() ==> clusters_spell(word_text(s, #[trigger] words(s)[k])),
        decreases chars.len() - start,
    {
        let end = skip_word_from(chars, start);
        let ghost k = base.len() as int;
        let ghost span = Span { start: start as int, end: end as int };
        proof {
            lemma_skip_whitespace_bounds(s, from as int);
            lemma_skip_word_bounds(s, start as int);
            assert(word_spans(s, from as int) == seq![span] + word_spans(s, end as int));
            assert(words(s) =~= done.push(span) + word_spans(s, end as int));
            assert(words(s)[k] == span);
            if k > 0 {
                assert(words(s)[k - 1] == done[k - 1]);
            }
        }
        let word = string_from_chars(slice_subrange(chars.as_slice(), start, end));
        let gap_len: usize = if base.len() == 0 {
            0
        } else {
            let gap = string_from_chars(slice_subrange(chars.as_slice(), from, start));
            assert(gap@ == gap_text(s, words(s), k));
            count_graphemes(gap.as_str())
        };
        let word_len: usize = count_graphemes(word.as_str());
        assert(word@ == word_text(s, words(s)[k]));
        let start_offset: usize = stop + gap_len;
        let stop_offset: usize = start_offset + word_len;
        assert(start_offset == word_start(s, words(s), k));
        assert(stop_offset == word_stop(s, words(s), k));
        base.push(TextChunk { chunk: word, start_offset, stop_offset });
        proof {
            done = done.push(span);
        }
        from = end;
        stop = stop_offset;
        start = skip_whitespace_from(chars, end);
    }
    proof {
        assert(word_spans(s, from as int) =~= Seq::<Span>::empty());
        assert(words(s) =~= done);
        assert(chunk_views(base@) =~= word_chunks(s));
    }
    base
}

/// If `len` lies after `(groups - 1) * size` and at or before `groups * size`,
/// then `len` divided by `size`, rounded up, is `groups`.
pub proof fn lemma_group_count(len: nat, size: nat, groups: nat)
    requires
        size >= 1,
        groups >= 1,
        (groups - 1) * size < len <= groups * size,
    ensures
        group_count(len, size) == groups,
{
    assert(group_count(len, size) == groups) by (nonlinear_arith)
        requires
            size >= 1,
            groups >= 1,
            (groups - 1) * size < len <= groups * size,
            group_count(len, size) == (len + size - 1) / (size as int),
    {
        let d = (len + size - 1) / (size as int);
        assert(d * size <= len + size - 1 < d * size + size);
        assert(groups - 1 < d) by {
            if d <= groups - 1 {
                assert(d * size <= (groups - 1) * size);
            }
        }
        assert(d < groups + 1) by {
            if d >= groups + 1 {
                assert(d * size >= (groups + 1) * size);
            }
        }
    }
}

/// `base` in runs of `size` chunks: each run becomes one chunk whose text is
/// the run's texts joined by single spaces and whose range goes from the
/// start of its first chunk to the stop of its last.
pub fn group_chunks(base: &Vec<TextChunk>, size: usize) -> (out: Vec<TextChunk>)
    requires
        size >= 1,
    ensures
        chunk_views(out@) == grouped(chunk_views(base@), size as nat),
{
    let ghost views = chunk_views(base@);
    let len = base.len();
    let mut out: Vec<TextChunk> = Vec::new();
    let mut first: usize = 0;
    assert(0 * size == 0) by (nonlinear_arith);
    while first < len
        invariant
            size >= 1,
            len == base.len(),
            views == chunk_views(base@),
            first <= len,
            first < len ==> first == out.len() * size,
            out.len() > 0 ==> (out.len() - 1) * size < len,
            first == len ==> len <= out.len() * size,
            forall|j: int|
                0 <= j < out.len() ==> (#[trigger] out[j])@ == group_at(views, size as nat, j),
        decreases len - first,
    {
        let ghost j = out.len() as int;
        let end: usize = if len - first > size {
            first + size
        } else {
            len
        };
        proof {
            assert((j + 1) * size == j * size + size) by (nonlinear_arith);
            assert(end == group_end(views.len(), size as nat, j));
        }
        let mut text = base[first].chunk.clone();
        let mut i: usize = first + 1;
        while i < end
            invariant
                first < i <= end <= len,
                len == base.len(),
                views == chunk_views(base@),
                text@ == joined_text(views, first as int, i - 1),
            decreases end - i,
        {
            proof {
                reveal_strlit(" ");
                assert(" "@ =~= seq![' ']);
            }
            text.append(" ");
            text.append(base[i].chunk.as_str());
            i += 1;
        }
        out.push(
            TextChunk {
                chunk: text,
                start_offset: base[first].start_offset,
                stop_offset: base[end - 1].stop_offset,
            },
        );
        first = end;
    }
    proof {
        if len == 0 {
            assert(group_count(0, size as nat) == 0) by (nonlinear_arith)
                requires
                    size >= 1,
                    group_count(0, size as nat) == (0 + size - 1) / (size as int),
            ;
        } else {
            lemma_group_count(len as nat, size as nat, out.len() as nat);
        }
        assert(chunk_views(out@) =~= grouped(views, size as nat));
    }
    out
}

/// Splits `input` into chunks of `chunk_size` words (a `chunk_size` of 0
/// counts as 1). Words are the runs between Unicode whitespace; whitespace
/// around the text belongs to no chunk. A text without words gives the one
/// empty chunk, so the result is never empty.
pub fn split(input: &str, chunk_size: usize) -> (chunks: Vec<TextChunk>)
    ensures
        chunk_views(chunks@) == split_spec(input@, chunk_size as nat),
        chunks.len() >= 1,
        words(input@).len() > 0 && chunk_size >= 1 ==> chunks.len() == group_count(
            words(input@).len(),
            chunk_size as nat,
        ),
        offsets_ordered(chunk_views(chunks@)),
        forall|i: int| 0 <= i < chunks.len() ==> (#[trigger] chunks[i]).stop_offset <= input@.len(),
        chunk_size <= 1 && clusters_follow_words(input@) ==> forall|i: int|
            0 <= i < words(input@).len() ==> grapheme_slice(
                trimmed(input@),
                chunks[i].start_offset as int,
                chunks[i].stop_offset as int,
            ) == (#[trigger] chunks[i]).chunk@,
        clusters_follow_words(input@) ==> forall|i: int|
            0 <= i < chunks.len() ==> (#[trigger] chunks[i]).stop_offset <= grapheme_len(
                trimmed(input@),
            ),
{
    let chars = collect_chars(input);
    let base = split_words(&chars);
    assert(chunk_views(base@).len() == base.len());
    assert(word_chunks(chars@).len() == words(chars@).len());
    proof {
        lemma_split_offsets_ordered(input@, chunk_size as nat);
    }
    if base.len() == 0 {
        let mut chunks: Vec<TextChunk> = Vec::new();
        chunks.push(TextChunk { chunk: String::new(), start_offset: 0, stop_offset: 0 });
        assert(chunk_views(chunks@) =~= seq![empty_chunk()]);
        return chunks;
    }
    if chunk_size > 1 {
        let chunks = group_chunks(&base, chunk_size);
        proof {
            lemma_group_count_positive(base.len() as nat, chunk_size as nat);
            assert(chunk_views(chunks@).len() == chunks.len());
            assert forall|j: int| 0 <= j < chunks.len() implies (#[trigger] chunks[j]).stop_offset
                <= input@.len() && (clusters_follow_words(input@) ==> chunks[j].stop_offset
                <= grapheme_len(trimmed(input@))) by {
                lemma_group_bounds(base.len() as nat, chunk_size as nat, j);
                let last = group_end(base.len() as nat, chunk_size as nat, j) - 1;
                assert(chunk_views(chunks@)[j] == group_at(
                    chunk_views(base@),
                    chunk_size as nat,
                    j,
                ));
                assert(chunk_views(base@)[last] == base[last]@);
                if clusters_follow_words(input@) {
                    assert(clusters_spell(word_text(input@, words(input@)[last])));
                    lemma_round_trip(input@, last);
                }
            }
        }
        chunks
    } else {
        proof {
            lemma_group_count_one(base.len() as nat);
            if clusters_follow_words(input@) {
                assert forall|i: int| 0 <= i < base.len() implies grapheme_slice(
                    trimmed(input@),
                    base[i].start_offset as int,
                    base[i].stop_offset as int,
                ) == (#[trigger] base[i]).chunk@ && base[i].stop_offset <= grapheme_len(
                    trimmed(input@),
                ) by {
                    assert(chunk_views(base@)[i] == word_chunk(input@, i));
                    assert(clusters_spell(word_text(input@, words(input@)[i])));
                    lemma_round_trip(input@, i);
                }
            }
        }
        base
    }
}

/// At least one word makes at least one group.
pub proof fn lemma_group_count_positive(len: nat, size: nat)
    requires
        len >= 1,
        size >= 1,
    ensures
        group_count(len, size) >= 1,
        (group_count(len, size) - 1) * size < len <= group_count(len, size) * size,
{
    assert(group_count(len, size) >= 1 && (group_count(len, size) - 1) * size < len
        <= group_count(len, size) * size) by (nonlinear_arith)
        requires
            len >= 1,
            size >= 1,
            group_count(len, size) == (len + size - 1) / (size as int),
    {
        let d = (len + size - 1) / (size as int);
        assert(d * size <= len + size - 1 < d * size + size);
        assert((d - 1) * size == d * size - size);
    }
}

/// Groups of one word are as many as the words.
pub proof fn lemma_group_count_one(len: nat)
    ensures
        group_count(len, 1) == len,
{
}

/// Splitting never gives an empty sequence.
pub proof fn lemma_split_never_empty(text: Seq<char>, chunk_size: nat)
    ensures
        split_spec(text, chunk_size).len() >= 1,
{
    if words(text).len() > 0 && chunk_size > 1 {
        lemma_group_count_positive(words(text).len(), chunk_size);
    }
}

/// A text with words gives as many chunks as its number of words divided by
/// the chunk size, rounded up: the least count whose runs hold every word.
pub proof fn lemma_split_count(text: Seq<char>, chunk_size: nat)
    requires
        words(text).len() > 0,
        chunk_size >= 1,
    ensures
        split_spec(text, chunk_size).len() == group_count(words(text).len(), chunk_size),
        (split_spec(text, chunk_size).len() - 1) * chunk_size < words(text).len()
            <= split_spec(text, chunk_size).len() * chunk_size,
{
    lemma_group_count_positive(words(text).len(), chunk_size);
    lemma_group_count_one(words(text).len());
}

/// Splitting depends on nothing but the text and the chunk size: two results
/// for the same arguments agree chunk by chunk, in text and in offsets.
pub proof fn lemma_split_deterministic(
    text: Seq<char>,
    chunk_size: nat,
    first: Seq<TextChunk>,
    second: Seq<TextChunk>,
)
    requires
        chunk_views(first) == split_spec(text, chunk_size),
        chunk_views(second) == split_spec(text, chunk_size),
    ensures
        first.len() == second.len(),
        forall|i: int|
            0 <= i < first.len() ==> (#[trigger] first[i]).chunk@ == second[i].chunk@
                && first[i].start_offset == second[i].start_offset && first[i].stop_offset
                == second[i].stop_offset,
{
    assert(chunk_views(first).len() == first.len());
    assert(chunk_views(second).len() == second.len());
    assert forall|i: int| 0 <= i < first.len() implies (#[trigger] first[i]).chunk@
        == second[i].chunk@ && first[i].start_offset == second[i].start_offset
        && first[i].stop_offset == second[i].stop_offset by {
        assert(chunk_views(first)[i] == first[i]@);
        assert(chunk_views(second)[i] == second[i]@);
    }
}

} // verus!
