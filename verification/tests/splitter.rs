use quick_reader::round_trip::{clusters_follow_words_in, same_texts};
use quick_reader::splitter::{group_chunks, split, split_words, TextChunk};
use quick_reader::unicode::{collect_chars, count_graphemes};
use quick_reader::words::{skip_whitespace_from, skip_word_from};
use unicode_segmentation::UnicodeSegmentation;

#[test]
fn test_empty_input() {
    let res = split("", 1);
    assert_eq!(
        res,
        vec![TextChunk {
            chunk: "".into(),
            start_offset: 0,
            stop_offset: 0,
        }]
    );
}

#[test]
fn test_only_whitespace() {
    let res = split("  \n\n\n  　\n", 1);
    assert_eq!(
        res,
        vec![TextChunk {
            chunk: "".into(),
            start_offset: 0,
            stop_offset: 0,
        }]
    );
}

#[test]
fn test_one_chunk() {
    let res = split(
        r#"Welcome to "Quick Reader". Press start to begin reading quickly."#,
        1,
    );

    assert_eq!(
        res,
        vec![
            TextChunk {
                chunk: "Welcome".into(),
                start_offset: 0,
                stop_offset: 7
            },
            TextChunk {
                chunk: "to".into(),
                start_offset: 8,
                stop_offset: 10
            },
            TextChunk {
                chunk: "\"Quick".into(),
                start_offset: 11,
                stop_offset: 17
            },
            TextChunk {
                chunk: "Reader\".".into(),
                start_offset: 18,
                stop_offset: 26
            },
            TextChunk {
                chunk: "Press".into(),
                start_offset: 27,
                stop_offset: 32
            },
            TextChunk {
                chunk: "start".into(),
                start_offset: 33,
                stop_offset: 38
            },
            TextChunk {
                chunk: "to".into(),
                start_offset: 39,
                stop_offset: 41
            },
            TextChunk {
                chunk: "begin".into(),
                start_offset: 42,
                stop_offset: 47
            },
            TextChunk {
                chunk: "reading".into(),
                start_offset: 48,
                stop_offset: 55
            },
            TextChunk {
                chunk: "quickly.".into(),
                start_offset: 56,
                stop_offset: 64
            }
        ]
    )
}

#[test]
fn test_two_chunks() {
    let res = split(
        r#"Welcome to "Quick Reader". Press start to begin reading quickly."#,
        2,
    );

    assert_eq!(
        res,
        vec![
            TextChunk {
                chunk: "Welcome to".into(),
                start_offset: 0,
                stop_offset: 10
            },
            TextChunk {
                chunk: "\"Quick Reader\".".into(),
                start_offset: 11,
                stop_offset: 26
            },
            TextChunk {
                chunk: "Press start".into(),
                start_offset: 27,
                stop_offset: 38
            },
            TextChunk {
                chunk: "to begin".into(),
                start_offset: 39,
                stop_offset: 47
            },
            TextChunk {
                chunk: "reading quickly.".into(),
                start_offset: 48,
                stop_offset: 64
            }
        ]
    )
}

#[test]
fn test_mixed_unicode() {
    let res = split("こんにちは world и　皆さん", 1);

    assert_eq!(
        res,
        vec![
            TextChunk {
                chunk: "こんにちは".into(),
                start_offset: 0,
                stop_offset: 5
            },
            TextChunk {
                chunk: "world".into(),
                start_offset: 6,
                stop_offset: 11
            },
            TextChunk {
                chunk: "и".into(),
                start_offset: 12,
                stop_offset: 13
            },
            TextChunk {
                chunk: "皆さん".into(),
                start_offset: 14,
                stop_offset: 17
            },
        ]
    )
}

#[test]
fn test_double_mixed_unicode() {
    let res = split("こんにちは world и　皆さん", 2);

    assert_eq!(
        res,
        vec![
            TextChunk {
                chunk: "こんにちは world".into(),
                start_offset: 0,
                stop_offset: 11
            },
            TextChunk {
                chunk: "и 皆さん".into(),
                start_offset: 12,
                stop_offset: 17
            },
        ]
    )
}

#[test]
fn test_triple_mixed_unicode() {
    let res = split("こんにちは world и　皆さん", 3);

    assert_eq!(
        res,
        vec![
            TextChunk {
                chunk: "こんにちは world и".into(),
                start_offset: 0,
                stop_offset: 13
            },
            TextChunk {
                chunk: "皆さん".into(),
                start_offset: 14,
                stop_offset: 17
            },
        ]
    )
}

#[test]
fn test_unicode_with_newlines() {
    let res = split("こんにちは world и　皆さん\n\n and ! everyone else", 1);

    assert_eq!(
        res,
        vec![
            TextChunk {
                chunk: "こんにちは".into(),
                start_offset: 0,
                stop_offset: 5
            },
            TextChunk {
                chunk: "world".into(),
                start_offset: 6,
                stop_offset: 11
            },
            TextChunk {
                chunk: "и".into(),
                start_offset: 12,
                stop_offset: 13
            },
            TextChunk {
                chunk: "皆さん".into(),
                start_offset: 14,
                stop_offset: 17
            },
            TextChunk {
                chunk: "and".into(),
                start_offset: 20,
                stop_offset: 23
            },
            TextChunk {
                chunk: "!".into(),
                start_offset: 24,
                stop_offset: 25
            },
            TextChunk {
                chunk: "everyone".into(),
                start_offset: 26,
                stop_offset: 34
            },
            TextChunk {
                chunk: "else".into(),
                start_offset: 35,
                stop_offset: 39
            },
        ]
    )
}

fn chunk(text: &str, start_offset: usize, stop_offset: usize) -> TextChunk {
    TextChunk {
        chunk: text.into(),
        start_offset,
        stop_offset,
    }
}

#[test]
fn test_whitespace_only_short() {
    assert_eq!(split("  \n\n  ", 1), vec![chunk("", 0, 0)]);
    assert_eq!(split("  \n\n  ", 3), vec![chunk("", 0, 0)]);
}

#[test]
fn test_quoted_words() {
    assert_eq!(
        split("Welcome to \"Quick Reader\".", 1),
        vec![
            chunk("Welcome", 0, 7),
            chunk("to", 8, 10),
            chunk("\"Quick", 11, 17),
            chunk("Reader\".", 18, 26),
        ]
    );
}

#[test]
fn test_outer_whitespace_is_not_counted() {
    assert_eq!(
        split(" \t one  two \n", 1),
        vec![chunk("one", 0, 3), chunk("two", 5, 8)]
    );
    assert_eq!(split(" \t one  two \n", 2), vec![chunk("one two", 0, 8)]);
}

#[test]
fn test_chunk_size_zero_counts_as_one() {
    assert_eq!(split("one two three", 0), split("one two three", 1));
}

#[test]
fn test_chunk_count_rounds_up() {
    let text = "a b c d e f g h i j";
    assert_eq!(split(text, 1).len(), 10);
    assert_eq!(split(text, 2).len(), 5);
    assert_eq!(split(text, 3).len(), 4);
    assert_eq!(split(text, 4).len(), 3);
    assert_eq!(split(text, 10).len(), 1);
    assert_eq!(split(text, 11).len(), 1);
    assert_eq!(split(text, usize::MAX).len(), 1);
}

#[test]
fn test_last_group_may_be_shorter() {
    assert_eq!(
        split("a b c d e", 2),
        vec![chunk("a b", 0, 3), chunk("c d", 4, 7), chunk("e", 8, 9)]
    );
}

#[test]
fn test_never_empty() {
    for text in ["", " ", "\u{3000}", "a", "a b", "  a  "] {
        for size in [0, 1, 2, 7] {
            assert!(!split(text, size).is_empty());
        }
    }
}

#[test]
fn test_same_arguments_same_result() {
    let text = "こんにちは world и　皆さん\n\n and ! everyone else";
    for size in [1, 2, 3] {
        assert_eq!(split(text, size), split(text, size));
    }
}

#[test]
fn test_offsets_do_not_overlap() {
    let text = "  Tab\tseparated\r\nand  spaced   e\u{301}te\u{301}  words ";
    for size in [1, 2, 3, 4] {
        let chunks = split(text, size);
        for i in 0..chunks.len() {
            assert!(chunks[i].start_offset <= chunks[i].stop_offset);
            if i + 1 < chunks.len() {
                assert!(chunks[i].stop_offset <= chunks[i + 1].start_offset);
            }
        }
    }
}

#[test]
fn test_combining_marks_count_with_their_base() {
    assert_eq!(
        split("e\u{301}galite\u{301} ok", 1),
        vec![chunk("e\u{301}galite\u{301}", 0, 7), chunk("ok", 8, 10)]
    );
}

#[test]
fn test_line_break_pair_is_one_cluster() {
    assert_eq!(
        split("a\r\nb", 1),
        vec![chunk("a", 0, 1), chunk("b", 2, 3)]
    );
}

#[test]
fn test_flags_are_one_cluster_each() {
    assert_eq!(
        split("🇷🇺🇸🇹 x", 1),
        vec![chunk("🇷🇺🇸🇹", 0, 2), chunk("x", 3, 4)]
    );
}

#[test]
fn test_word_that_begins_with_a_combining_mark() {
    // The mark joins the space before it in the text as a whole, but each
    // word and each gap is counted on its own.
    assert_eq!(
        split("a \u{301}b", 1),
        vec![chunk("a", 0, 1), chunk("\u{301}b", 2, 4)]
    );
    assert_eq!("a \u{301}b".graphemes(true).count(), 3);
}

#[test]
fn test_offsets_lead_back_to_the_words() {
    let text = "  こんにちは world и　皆さん\n\n and ! e\u{301}veryone else ";
    let trimmed = text.trim();
    let clusters: Vec<&str> = trimmed.graphemes(true).collect();
    let words: Vec<&str> = trimmed.split_whitespace().collect();
    let chunks = split(text, 1);
    assert_eq!(chunks.len(), words.len());
    for (i, c) in chunks.iter().enumerate() {
        let covered: String = clusters[c.start_offset..c.stop_offset].concat();
        assert_eq!(covered, words[i]);
        assert_eq!(c.chunk, words[i]);
    }
    assert!(chunks[chunks.len() - 1].stop_offset <= clusters.len());
}

#[test]
fn test_split_words_gives_one_chunk_per_word() {
    let chars: Vec<char> = " ab  cde ".chars().collect();
    assert_eq!(split_words(&chars), vec![chunk("ab", 0, 2), chunk("cde", 4, 7)]);
    assert_eq!(split_words(&Vec::new()), Vec::<TextChunk>::new());
}

#[test]
fn test_group_chunks_joins_with_single_spaces() {
    let base = vec![chunk("a", 0, 1), chunk("b", 5, 6), chunk("c", 9, 10)];
    assert_eq!(
        group_chunks(&base, 2),
        vec![chunk("a b", 0, 6), chunk("c", 9, 10)]
    );
    assert_eq!(group_chunks(&base, 1), base);
    assert_eq!(group_chunks(&base, 3), vec![chunk("a b c", 0, 10)]);
    assert_eq!(group_chunks(&Vec::new(), 2), Vec::<TextChunk>::new());
}

#[test]
fn test_count_graphemes() {
    assert_eq!(count_graphemes(""), 0);
    assert_eq!(count_graphemes("abc"), 3);
    assert_eq!(count_graphemes("e\u{301}"), 1);
    assert_eq!(count_graphemes("\r\n"), 1);
    assert_eq!(count_graphemes("皆さん"), 3);
}

#[test]
fn test_collect_chars() {
    assert_eq!(collect_chars("aé皆"), vec!['a', 'é', '皆']);
    assert_eq!(collect_chars(""), Vec::<char>::new());
}

#[test]
fn test_skipping_whitespace_and_words() {
    let chars: Vec<char> = " \u{3000}ab\tc".chars().collect();
    assert_eq!(skip_whitespace_from(&chars, 0), 2);
    assert_eq!(skip_whitespace_from(&chars, 2), 2);
    assert_eq!(skip_word_from(&chars, 2), 4);
    assert_eq!(skip_word_from(&chars, 4), 4);
    assert_eq!(skip_whitespace_from(&chars, 4), 5);
    assert_eq!(skip_word_from(&chars, 5), 6);
    assert_eq!(skip_whitespace_from(&chars, 6), 6);
}

fn listed_as_whitespace(c: char) -> bool {
    matches!(
        c as u32,
        0x0009..=0x000D
            | 0x0020
            | 0x0085
            | 0x00A0
            | 0x1680
            | 0x2000..=0x200A
            | 0x2028
            | 0x2029
            | 0x202F
            | 0x205F
            | 0x3000
    )
}

#[test]
fn test_whitespace_is_the_listed_code_points() {
    let mut listed = 0;
    for code in 0..=0x10FFFFu32 {
        if let Some(c) = char::from_u32(code) {
            let one = vec![c];
            let skipped = skip_whitespace_from(&one, 0);
            assert_eq!(skipped == 1, listed_as_whitespace(c), "U+{code:04X}");
            assert_eq!(skip_word_from(&one, 0), 1 - skipped, "U+{code:04X}");
            listed += skipped;
        }
    }
    assert_eq!(listed, 25);
}

#[test]
fn test_every_whitespace_parts_words() {
    for gap in ["\t", "\n", "\u{b}", "\u{c}", "\r", " ", "\u{85}", "\u{a0}", "\u{1680}",
        "\u{2000}", "\u{200a}", "\u{2028}", "\u{2029}", "\u{202f}", "\u{205f}", "\u{3000}"]
    {
        let text = format!("a{gap}b");
        assert_eq!(split(&text, 1), vec![chunk("a", 0, 1), chunk("b", 2, 3)]);
    }
    // Neither the zero width space nor the Mongolian vowel separator parts words
    assert_eq!(split("a\u{200b}b", 1).len(), 1);
    assert_eq!(split("a\u{180e}b", 1).len(), 1);
}

#[test]
fn test_clusters_follow_words_in() {
    assert!(clusters_follow_words_in(""));
    assert!(clusters_follow_words_in("  \n "));
    assert!(clusters_follow_words_in("one"));
    assert!(clusters_follow_words_in("  one  two\r\nthree "));
    assert!(clusters_follow_words_in("こんにちは world и　皆さん\n\n and ! e\u{301}veryone else"));
    assert!(clusters_follow_words_in("🇷🇺🇸🇹 x"));
    // A combining mark at the start of a word joins the space before it
    assert!(!clusters_follow_words_in("a \u{301}b"));
    assert!(!clusters_follow_words_in("one two \u{301}three four"));
    // Before the first word there is nothing that it could join
    assert!(clusters_follow_words_in(" \u{301}b c"));
}

#[test]
fn test_offsets_count_clusters_where_clusters_follow_words() {
    for text in ["  Tab\tseparated\r\nand  spaced   e\u{301}te\u{301}  words ", "a b c", "x"] {
        assert!(clusters_follow_words_in(text));
        let clusters: Vec<&str> = text.trim().graphemes(true).collect();
        for size in [1, 2, 3] {
            let chunks = split(text, size);
            assert!(chunks[chunks.len() - 1].stop_offset <= clusters.len());
        }
        for c in split(text, 1) {
            assert_eq!(clusters[c.start_offset..c.stop_offset].concat(), c.chunk);
        }
    }
}

#[test]
fn test_same_texts() {
    let a = vec!["x".to_string(), "yz".to_string()];
    assert!(same_texts(&a, &a.clone()));
    assert!(same_texts(&Vec::new(), &Vec::new()));
    assert!(!same_texts(&a, &vec!["x".to_string()]));
    assert!(!same_texts(&a, &vec!["x".to_string(), "y".to_string()]));
    assert!(!same_texts(&a, &vec!["xy".to_string(), "z".to_string()]));
    assert!(!same_texts(&Vec::new(), &a));
}
