//! From offsets back to words: where no grapheme cluster of the text reaches
//! across the edge of a word, the clusters that a one-word chunk names are
//! that word.

use crate::splitter::{gap_text, word_start, word_stop};
use crate::unicode::{
    clusters_spell, collect_chars, grapheme_clusters, grapheme_slice, graphemes,
    string_from_chars, views_of, white_space,
};
use crate::words::{
    covered, lemma_skip_whitespace_bounds, lemma_skip_word_bounds, lemma_words_are_runs,
    skip_whitespace, skip_whitespace_from, skip_word_from, word_spans, word_text, words, Span,
};
use vstd::prelude::*;
use vstd::slice::slice_subrange;

verus! {

/// `s` without the whitespace before its first word and after its last.
pub open spec fn trimmed(s: Seq<char>) -> Seq<char> {
    if words(s).len() == 0 {
        Seq::empty()
    } else {
        s.subrange(words(s).first().start, words(s).last().end)
    }
}

/// The clusters of the words of `s` up to word `k` and of the gaps between
/// them, each word and each gap segmented on its own, in the order of the
/// text.
pub open spec fn piecewise_clusters(s: Seq<char>, k: int) -> Seq<Seq<char>>
    decreases k,
{
    if k < 0 {
        Seq::empty()
    } else if k == 0 {
        grapheme_clusters(word_text(s, words(s)[0]))
    } else {
        piecewise_clusters(s, k - 1) + grapheme_clusters(gap_text(s, words(s), k))
            + grapheme_clusters(word_text(s, words(s)[k]))
    }
}

/// No cluster of the trimmed text reaches across the edge of a word: the text
/// as a whole falls into the same clusters as its words and gaps do one by
/// one.
pub open spec fn clusters_follow_words(s: Seq<char>) -> bool {
    grapheme_clusters(trimmed(s)) == piecewise_clusters(s, words(s).len() - 1)
}

/// Up to word `k` there are as many clusters as the offset at which word `k`
/// stops.
pub proof fn lemma_piecewise_len(s: Seq<char>, k: int)
    requires
        0 <= k,
    ensures
        piecewise_clusters(s, k).len() == word_stop(s, words(s), k),
    decreases k,
{
    if k > 0 {
        lemma_piecewise_len(s, k - 1);
    }
}

/// The clusters up to word `k` begin the clusters up to any later word `m`.
pub proof fn lemma_piecewise_prefix(s: Seq<char>, k: int, m: int)
    requires
        0 <= k <= m,
    ensures
        piecewise_clusters(s, k).len() <= piecewise_clusters(s, m).len(),
        piecewise_clusters(s, m).subrange(0, piecewise_clusters(s, k).len() as int)
            == piecewise_clusters(s, k),
    decreases m - k,
{
    if k < m {
        lemma_piecewise_prefix(s, k, m - 1);
        let shorter = piecewise_clusters(s, m - 1);
        let longer = piecewise_clusters(s, m);
        let n = piecewise_clusters(s, k).len() as int;
        assert(longer.subrange(0, n) =~= shorter.subrange(0, n));
    } else {
        assert(piecewise_clusters(s, m).subrange(0, piecewise_clusters(s, k).len() as int)
            =~= piecewise_clusters(s, k));
    }
}

/// For a text in which no cluster reaches across the edge of a word: the
/// clusters of the trimmed text from the start offset of word `k` to its stop
/// offset spell word `k`.
pub proof fn lemma_round_trip(s: Seq<char>, k: int)
    requires
        0 <= k < words(s).len(),
        clusters_follow_words(s),
        clusters_spell(word_text(s, words(s)[k])),
    ensures
        word_start(s, words(s), k) <= word_stop(s, words(s), k) <= grapheme_clusters(
            trimmed(s),
        ).len(),
        grapheme_slice(
            trimmed(s),
            word_start(s, words(s), k) as int,
            word_stop(s, words(s), k) as int,
        ) == word_text(s, words(s)[k]),
{
    let all = grapheme_clusters(trimmed(s));
    let upto = piecewise_clusters(s, k);
    let own = grapheme_clusters(word_text(s, words(s)[k]));
    let start = word_start(s, words(s), k) as int;
    let stop = word_stop(s, words(s), k) as int;
    lemma_piecewise_len(s, k);
    lemma_piecewise_prefix(s, k, words(s).len() - 1);
    if k > 0 {
        lemma_piecewise_len(s, k - 1);
    }
    assert(upto.subrange(start, stop) =~= own);
    assert(all.subrange(start, stop) =~= all.subrange(0, stop).subrange(start, stop));
}

/// A later word begins after an earlier word has ended.
pub proof fn lemma_words_in_order(s: Seq<char>, a: int, b: int)
    requires
        0 <= a < b < words(s).len(),
    ensures
        words(s)[a].end < words(s)[b].start,
    decreases b - a,
{
    lemma_words_are_runs(s, 0);
    if a + 1 < b {
        lemma_words_in_order(s, a, b - 1);
        assert(words(s)[b - 1].end < words(s)[b - 1 + 1].start);
    } else {
        assert(words(s)[a].end < words(s)[a + 1].start);
    }
}

/// `trimmed` takes away whitespace and nothing else, and all of it at both
/// ends: what lies before the first word and after the last is whitespace,
/// and a text with words begins and ends with a character that is none.
pub proof fn lemma_trimmed_is_trim(s: Seq<char>)
    ensures
        words(s).len() == 0 ==> forall|i: int| 0 <= i < s.len() ==> white_space(#[trigger] s[i]),
        words(s).len() > 0 ==> {
            &&& 0 <= words(s).first().start < words(s).last().end <= s.len()
            &&& forall|i: int| 0 <= i < words(s).first().start ==> white_space(#[trigger] s[i])
            &&& forall|i: int| words(s).last().end <= i < s.len() ==> white_space(#[trigger] s[i])
            &&& !white_space(trimmed(s).first())
            &&& !white_space(trimmed(s).last())
        },
{
    let spans = words(s);
    lemma_words_are_runs(s, 0);
    if spans.len() == 0 {
        assert forall|i: int| 0 <= i < s.len() implies white_space(#[trigger] s[i]) by {
            assert(!covered(spans, i));
        }
    } else {
        let first = spans.first();
        let last = spans.last();
        assert(first == spans[0]);
        assert(last == spans[spans.len() - 1]);
        if spans.len() > 1 {
            lemma_words_in_order(s, 0, spans.len() - 1);
        }
        assert forall|i: int| 0 <= i < first.start implies white_space(#[trigger] s[i]) by {
            if covered(spans, i) {
                let k = choose|k: int|
                    0 <= k < spans.len() && (#[trigger] spans[k]).start <= i < spans[k].end;
                if k > 0 {
                    lemma_words_in_order(s, 0, k);
                }
            }
        }
        assert forall|i: int| last.end <= i < s.len() implies white_space(#[trigger] s[i]) by {
            if covered(spans, i) {
                let k = choose|k: int|
                    0 <= k < spans.len() && (#[trigger] spans[k]).start <= i < spans[k].end;
                if k < spans.len() - 1 {
                    lemma_words_in_order(s, k, spans.len() - 1);
                }
            }
        }
        assert(covered(spans, first.start));
        assert(covered(spans, last.end - 1));
        assert(trimmed(s).first() == s[first.start]);
        assert(trimmed(s).last() == s[last.end - 1]);
    }
}

/// Whether `a` and `b` hold the same texts in the same order.
pub fn same_texts(a: &Vec<String>, b: &Vec<String>) -> (same: bool)
    ensures
        same == (views_of(a@) == views_of(b@)),
{
    assert(views_of(a@).len() == a.len());
    assert(views_of(b@).len() == b.len());
    if a.len() != b.len() {
        return false;
    }
    let mut i: usize = 0;
    while i < a.len()
        invariant
            i <= a.len(),
            a.len() == b.len(),
            forall|k: int| 0 <= k < i ==> (#[trigger] a[k])@ == b[k]@,
        decreases a.len() - i,
    {
        if !(a[i] == b[i]) {
            assert(views_of(a@)[i as int] == a[i as int]@);
            assert(views_of(b@)[i as int] == b[i as int]@);
            return false;
        }
        i += 1;
    }
    assert(views_of(a@) =~= views_of(b@));
    true
}

/// Whether no grapheme cluster of `input` reaches across the edge of a word:
/// whether the trimmed text falls into the same clusters as its words and
/// gaps do one by one. Where this holds, the offsets of `split` count the
/// clusters of the trimmed text.
pub fn clusters_follow_words_in(input: &str) -> (follows: bool)
    ensures
        follows == clusters_follow_words(input@),
{
    let chars = collect_chars(input);
    let ghost s = chars@;
    let ghost mut done: Seq<Span> = Seq::empty();
    let mut pieces: Vec<String> = Vec::new();
    let mut any_word = false;
    let mut first: usize = 0;
    let mut from: usize = 0;
    let mut start = skip_whitespace_from(&chars, 0);
    assert(words(s) =~= done + word_spans(s, 0));
    assert(views_of(pieces@) =~= piecewise_clusters(s, -1));
    while start < chars.len()
        invariant
            s == chars@,
            first <= from <= start <= chars.len(),
            start == skip_whitespace(s, from as int),
            any_word == (done.len() > 0),
            words(s) == done + word_spans(s, from as int),
            done.len() == 0 ==> from == 0 && first == 0,
            done.len() > 0 ==> first == done[0].start && from == done[done.len() - 1].end,
            views_of(pieces@) == piecewise_clusters(s, done.len() - 1),
        decreases chars.len() - start,
    {
        let end = skip_word_from(&chars, start);
        let ghost k = done.len() as int;
        let ghost span = Span { start: start as int, end: end as int };
        let ghost before = views_of(pieces@);
        proof {
            lemma_skip_whitespace_bounds(s, from as int);
            lemma_skip_word_bounds(s, start as int);
            assert(word_spans(s, from as int) == seq![span] + word_spans(s, end as int));
            assert(words(s) =~= done.push(span) + word_spans(s, end as int));
            assert(words(s)[k] == span);
            if k > 0 {
                assert(words(s)[k - 1] == done[k - 1]);
                assert(words(s)[0] == done[0]);
            }
        }
        if !any_word {
            first = start;
        } else {
            let gap = string_from_chars(slice_subrange(chars.as_slice(), from, start));
            assert(gap@ == gap_text(s, words(s), k));
            let mut gap_clusters = graphemes(gap.as_str());
            let ghost added = views_of(gap_clusters@);
            pieces.append(&mut gap_clusters);
            assert(views_of(pieces@) =~= before + added);
        }
        let ghost with_gap = views_of(pieces@);
        let word = string_from_chars(slice_subrange(chars.as_slice(), start, end));
        assert(word@ == word_text(s, words(s)[k]));
        let mut word_clusters = graphemes(word.as_str());
        let ghost added = views_of(word_clusters@);
        pieces.append(&mut word_clusters);
        assert(views_of(pieces@) =~= with_gap + added);
        assert(views_of(pieces@) == piecewise_clusters(s, k));
        proof {
            done = done.push(span);
        }
        any_word = true;
        from = end;
        start = skip_whitespace_from(&chars, end);
    }
    proof {
        assert(word_spans(s, from as int) =~= Seq::<Span>::empty());
        assert(words(s) =~= done);
    }
    let text = string_from_chars(slice_subrange(chars.as_slice(), first, from));
    assert(text@ =~= trimmed(s));
    let whole = graphemes(text.as_str());
    same_texts(&whole, &pieces)
}

} // verus!
