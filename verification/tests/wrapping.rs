use asciigram::text::wrap_text;

#[test]
fn wrap_zero_width_yields_nothing() {
    assert_eq!(wrap_text("anything at all", 0), Vec::<String>::new());
    assert_eq!(wrap_text("", 0), Vec::<String>::new());
}

#[test]
fn wrap_empty_text_yields_one_blank_line() {
    assert_eq!(wrap_text("", 5), vec![String::new()]);
}

#[test]
fn wrap_simple_fit() {
    assert_eq!(wrap_text("hi", 10), vec!["hi".to_string()]);
}

#[test]
fn wrap_keeps_trailing_space_on_flushed_line() {
    assert_eq!(wrap_text("aa bb", 4), vec!["aa ".to_string(), "bb".to_string()]);
}

#[test]
fn wrap_exact_boundary() {
    assert_eq!(wrap_text("ab cd", 3), vec!["ab ".to_string(), "cd".to_string()]);
}

#[test]
fn wrap_hard_splits_overwide_word() {
    assert_eq!(
        wrap_text("abcdefgh", 3),
        vec!["abc".to_string(), "def".to_string(), "gh".to_string()]
    );
}

#[test]
fn wrap_hard_split_keeps_space_remainder() {
    // "hello " is six characters at width five: the word is cut and the
    // trailing space starts the next line.
    assert_eq!(
        wrap_text("hello world", 5),
        vec!["hello".to_string(), " ".to_string(), "world".to_string()]
    );
}

#[test]
fn wrap_preserves_paragraphs() {
    // Three paragraphs, the middle one blank, give three blocks.
    assert_eq!(
        wrap_text("a\n\nb", 10),
        vec!["a".to_string(), String::new(), "b".to_string()]
    );
    let text = "one two three\nfour";
    let lines = wrap_text(text, 5);
    // Paragraph one wraps to several lines; paragraph two stays whole.
    assert_eq!(lines.last().unwrap(), "four");
}

#[test]
fn wrap_lines_never_exceed_width() {
    let text = "the quick brown fox jumps over the lazy dog\nsecond paragraph here";
    for w in 1u16..12 {
        for line in wrap_text(text, w) {
            assert!(line.chars().count() <= w as usize, "{:?} wider than {}", line, w);
        }
    }
}

#[test]
fn wrap_is_pure() {
    let text = "some text\nwith two paragraphs and a veryverylongword";
    assert_eq!(wrap_text(text, 7), wrap_text(text, 7));
    assert_eq!(wrap_text(text, 1), wrap_text(text, 1));
}

#[test]
fn wrap_paragraph_count_matches_split_count() {
    for text in ["", "a", "a\nb", "\n", "x y z\n\n\ntail", "ends with newline\n"] {
        let expected = text.split('\n').count();
        let lines = wrap_text(text, 4);
        // Rebuild the block structure: every paragraph contributes at
        // least one line, and blank paragraphs stay blank lines, so
        // re-wrapping each input paragraph must tile the output.
        let mut consumed = 0usize;
        let mut blocks = 0usize;
        for paragraph in text.split('\n') {
            let block = wrap_text(paragraph, 4);
            assert_eq!(&lines[consumed..consumed + block.len()], &block[..]);
            consumed += block.len();
            blocks += 1;
        }
        assert_eq!(consumed, lines.len());
        assert_eq!(blocks, expected);
    }
}
