//! The Unicode facts this library takes from outside: which characters are
//! whitespace, and how a text falls into grapheme clusters. What this file
//! says of `char::is_whitespace`, of `graphemes` and of `string_from_chars`
//! is believed, not proved; everything else in the library is proved
//! against it.

use unicode_segmentation::UnicodeSegmentation;
use vstd::prelude::*;

verus! {

/// Whether `c` has the Unicode `White_Space` property: the 25 code points
/// that the Unicode Character Database lists under that name.
pub open spec fn white_space(c: char) -> bool {
    let code = c as u32;
    ||| 0x0009 <= code <= 0x000D
    ||| code == 0x0020
    ||| code == 0x0085
    ||| code == 0x00A0
    ||| code == 0x1680
    ||| 0x2000 <= code <= 0x200A
    ||| code == 0x2028
    ||| code == 0x2029
    ||| code == 0x202F
    ||| code == 0x205F
    ||| code == 0x3000
}

/// The extended grapheme clusters of `text`, in order, as
/// `UnicodeSegmentation::graphemes(text, true)` yields them.
pub uninterp spec fn grapheme_clusters(text: Seq<char>) -> Seq<Seq<char>>;

/// The number of extended grapheme clusters in `text`.
pub open spec fn grapheme_len(text: Seq<char>) -> nat {
    grapheme_clusters(text).len()
}

/// The grapheme clusters of `text`, put together again, spell `text`.
pub open spec fn clusters_spell(text: Seq<char>) -> bool {
    grapheme_clusters(text).flatten() == text
}

/// The characters that clusters `start .. stop` of `text` cover.
pub open spec fn grapheme_slice(text: Seq<char>, start: int, stop: int) -> Seq<char> {
    grapheme_clusters(text).subrange(start, stop).flatten()
}

/// The characters of each string of `strings`, in order.
pub open spec fn views_of(strings: Seq<String>) -> Seq<Seq<char>> {
    Seq::new(strings.len(), |i: int| strings[i]@)
}

/// `char::is_whitespace` of std, which answers whether `c` has the
/// `White_Space` property; `white_space` spells that property out.
pub assume_specification[ char::is_whitespace ](c: char) -> (b: bool)
    ensures
        b == white_space(c),
;

/// Collects what `UnicodeSegmentation::graphemes(s, true)` yields. The
/// iterator hands out consecutive, non-empty slices of `s` that together
/// cover it: so the clusters concatenate to `s`, and none of them is empty.
#[verifier::external_body]
pub(crate) fn graphemes(s: &str) -> (clusters: Vec<String>)
    ensures
        views_of(clusters@) == grapheme_clusters(s@),
        views_of(clusters@).flatten() == s@,
        forall|i: int| 0 <= i < clusters.len() ==> (#[trigger] clusters[i])@.len() > 0,
{
    s.graphemes(true).map(|g| g.to_string()).collect()
}

/// `String::from_iter` of std over a slice of characters: the string holds
/// exactly those characters, in order. (Cutting the words out of the text
/// with vstd's `substring_char` would need no trust, but scans the text from
/// its start for every word.)
#[verifier::external_body]
pub(crate) fn string_from_chars(chars: &[char]) -> (s: String)
    ensures
        s@ == chars@,
{
    chars.iter().collect()
}

/// The characters of `s`, in order.
pub fn collect_chars(s: &str) -> (chars: Vec<char>)
    ensures
        chars@ == s@,
{
    broadcast use vstd::string::group_string_axioms;

    let mut chars: Vec<char> = Vec::new();
    let source = s.chars();
    for c in it: source
        invariant
            it.seq() == s@,
            chars@ == it.history(),
    {
        chars.push(c);
    }
    assert(chars@ =~= s@);
    chars
}

/// A concatenation of non-empty pieces has at least as many characters as it
/// has pieces.
pub proof fn lemma_flatten_len_of_nonempty(pieces: Seq<Seq<char>>)
    requires
        forall|i: int| 0 <= i < pieces.len() ==> (#[trigger] pieces[i]).len() > 0,
    ensures
        pieces.len() <= pieces.flatten().len(),
    decreases pieces.len(),
{
    if pieces.len() > 0 {
        let rest = pieces.drop_first();
        assert forall|i: int| 0 <= i < rest.len() implies (#[trigger] rest[i]).len() > 0 by {
            assert(rest[i] == pieces[i + 1]);
        }
        lemma_flatten_len_of_nonempty(rest);
        assert(pieces[0].len() > 0);
    }
}

/// The number of grapheme clusters of `s`. There are at most as many as `s`
/// has characters, and together they spell `s`.
pub fn count_graphemes(s: &str) -> (n: usize)
    ensures
        n == grapheme_len(s@),
        n <= s@.len(),
        clusters_spell(s@),
{
    let clusters = graphemes(s);
    proof {
        let pieces = views_of(clusters@);
        assert forall|i: int| 0 <= i < pieces.len() implies (#[trigger] pieces[i]).len() > 0 by {
            assert(pieces[i] == clusters[i]@);
        }
        lemma_flatten_len_of_nonempty(pieces);
    }
    clusters.len()
}

} // verus!
