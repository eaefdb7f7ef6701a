//! Whitespace-delimited words of a text, as ranges of character positions.

use crate::unicode::white_space;
use vstd::prelude::*;

verus! {

/// The half-open range `[start, end)` of character positions of one word.
pub struct Span {
    pub start: int,
    pub end: int,
}

/// The first position at or after `from` that holds no whitespace, or the
/// length of `s` if only whitespace follows.
pub open spec fn skip_whitespace(s: Seq<char>, from: int) -> int
    decreases s.len() - from,
{
    if 0 <= from < s.len() && white_space(s[from]) {
        skip_whitespace(s, from + 1)
    } else {
        from
    }
}

/// The first position at or after `from` that holds whitespace, or the length
/// of `s` if no whitespace follows.
pub open spec fn skip_word(s: Seq<char>, from: int) -> int
    decreases s.len() - from,
{
    if 0 <= from < s.len() && !white_space(s[from]) {
        skip_word(s, from + 1)
    } else {
        from
    }
}

/// The words of `s` that start at or after `from`, in order. A word is a
/// maximal run of characters that are not whitespace.
pub open spec fn word_spans(s: Seq<char>, from: int) -> Seq<Span>
    decreases s.len() - from,
    via word_spans_decreases
{
    let start = skip_whitespace(s, from);
    if 0 <= from && start < s.len() {
        seq![Span { start, end: skip_word(s, start) }] + word_spans(s, skip_word(s, start))
    } else {
        Seq::empty()
    }
}

#[via_fn]
proof fn word_spans_decreases(s: Seq<char>, from: int) {
    let start = skip_whitespace(s, from);
    if 0 <= from && start < s.len() {
        lemma_skip_whitespace_bounds(s, from);
        lemma_skip_word_bounds(s, start);
    }
}

/// All the words of `s`.
pub open spec fn words(s: Seq<char>) -> Seq<Span> {
    word_spans(s, 0)
}

/// The characters of the word `span` of `s`.
pub open spec fn word_text(s: Seq<char>, span: Span) -> Seq<char> {
    s.subrange(span.start, span.end)
}

/// Skipping whitespace moves forward, stays inside `s`, passes only
/// whitespace and stops at a character that is none.
pub proof fn lemma_skip_whitespace_bounds(s: Seq<char>, from: int)
    requires
        0 <= from <= s.len(),
    ensures
        from <= skip_whitespace(s, from) <= s.len(),
        forall|i: int| from <= i < skip_whitespace(s, from) ==> white_space(#[trigger] s[i]),
        skip_whitespace(s, from) < s.len() ==> !white_space(s[skip_whitespace(s, from)]),
    decreases s.len() - from,
{
    if from < s.len() && white_space(s[from]) {
        lemma_skip_whitespace_bounds(s, from + 1);
    }
}

/// Skipping a word moves forward, stays inside `s`, passes no whitespace and
/// stops at whitespace or at the end; from a character that is no whitespace
/// it moves at least one position.
pub proof fn lemma_skip_word_bounds(s: Seq<char>, from: int)
    requires
        0 <= from <= s.len(),
    ensures
        from <= skip_word(s, from) <= s.len(),
        forall|i: int| from <= i < skip_word(s, from) ==> !white_space(#[trigger] s[i]),
        skip_word(s, from) < s.len() ==> white_space(s[skip_word(s, from)]),
        from < s.len() && !white_space(s[from]) ==> from < skip_word(s, from),
    decreases s.len() - from,
{
    if from < s.len() && !white_space(s[from]) {
        lemma_skip_word_bounds(s, from + 1);
    }
}

/// The position after the whitespace that starts at `from`; `from` itself
/// where no whitespace starts there, and beyond the end of the text.
pub fn skip_whitespace_from(chars: &Vec<char>, from: usize) -> (to: usize)
    ensures
        to == skip_whitespace(chars@, from as int),
        from <= to,
        to <= chars.len() || to == from,
{
    let mut i: usize = from;
    while i < chars.len() && chars[i].is_whitespace()
        invariant
            from <= i,
            i <= chars.len() || i == from,
            skip_whitespace(chars@, from as int) == skip_whitespace(chars@, i as int),
        decreases chars.len() - i,
    {
        i += 1;
    }
    i
}

/// The position after the word that starts at `from`; `from` itself where
/// no word starts there, and beyond the end of the text.
pub fn skip_word_from(chars: &Vec<char>, from: usize) -> (to: usize)
    ensures
        to == skip_word(chars@, from as int),
        from <= to,
        to <= chars.len() || to == from,
{
    let mut i: usize = from;
    while i < chars.len() && !chars[i].is_whitespace()
        invariant
            from <= i,
            i <= chars.len() || i == from,
            skip_word(chars@, from as int) == skip_word(chars@, i as int),
        decreases chars.len() - i,
    {
        i += 1;
    }
    i
}

/// Whether position `i` lies in one of `spans`.
pub open spec fn covered(spans: Seq<Span>, i: int) -> bool {
    exists|k: int| 0 <= k < spans.len() && (#[trigger] spans[k]).start <= i < spans[k].end
}

/// The words are the maximal runs of characters that are not whitespace:
/// each word lies in the text and is not empty, a word ends before the next
/// one begins, and from `from` on a character belongs to a word exactly if
/// it is no whitespace.
pub proof fn lemma_words_are_runs(s: Seq<char>, from: int)
    requires
        0 <= from <= s.len(),
    ensures
        forall|k: int|
            0 <= k < word_spans(s, from).len() ==> from <= (#[trigger] word_spans(s, from)[k]).start
                < word_spans(s, from)[k].end <= s.len(),
        forall|k: int|
            0 <= k < word_spans(s, from).len() - 1 ==> (#[trigger] word_spans(s, from)[k]).end
                < word_spans(s, from)[k + 1].start,
        forall|i: int|
            from <= i < s.len() ==> (!white_space(#[trigger] s[i]) <==> covered(
                word_spans(s, from),
                i,
            )),
    decreases s.len() - from,
{
    let spans = word_spans(s, from);
    let a = skip_whitespace(s, from);
    lemma_skip_whitespace_bounds(s, from);
    if a < s.len() {
        let b = skip_word(s, a);
        lemma_skip_word_bounds(s, a);
        let rest = word_spans(s, b);
        lemma_words_are_runs(s, b);
        assert(spans == seq![Span { start: a, end: b }] + rest);
        assert(spans[0] == Span { start: a, end: b });
        assert forall|k: int| 0 <= k < spans.len() implies from <= (#[trigger] spans[k]).start
            < spans[k].end <= s.len() by {
            if k > 0 {
                assert(spans[k] == rest[k - 1]);
            }
        }
        assert forall|k: int| 0 <= k < spans.len() - 1 implies (#[trigger] spans[k]).end < spans[k
            + 1].start by {
            assert(spans[k + 1] == rest[k]);
            if k == 0 {
                assert(covered(rest, rest[0].start));
                assert(!white_space(s[rest[0].start]));
            } else {
                assert(spans[k] == rest[k - 1]);
            }
        }
        assert forall|i: int| from <= i < s.len() implies (!white_space(#[trigger] s[i])
            <==> covered(spans, i)) by {
            if i < a {
                assert(white_space(s[i]));
                if covered(spans, i) {
                    let k = choose|k: int|
                        0 <= k < spans.len() && (#[trigger] spans[k]).start <= i < spans[k].end;
                    assert(a <= spans[k].start) by {
                        if k > 0 {
                            assert(spans[k] == rest[k - 1]);
                        }
                    }
                }
            } else if i < b {
                assert(spans[0].start <= i < spans[0].end);
            } else {
                if covered(rest, i) {
                    let k = choose|k: int|
                        0 <= k < rest.len() && (#[trigger] rest[k]).start <= i < rest[k].end;
                    assert(spans[k + 1] == rest[k]);
                    assert(spans[k + 1].start <= i < spans[k + 1].end);
                }
                if covered(spans, i) {
                    let k = choose|k: int|
                        0 <= k < spans.len() && (#[trigger] spans[k]).start <= i < spans[k].end;
                    assert(k > 0);
                    assert(spans[k] == rest[k - 1]);
                    assert(rest[k - 1].start <= i < rest[k - 1].end);
                }
            }
        }
    } else {
        assert(spans =~= Seq::<Span>::empty());
    }
}

} // verus!
