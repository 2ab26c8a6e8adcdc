use rust_metrics::{
    count_ngrams, to_ascii_lowercase, white_space,
    lcs_length, levenshtein_distance, ngram_overlap, normalize_char, normalize_text, tokenize,
    tokenize_with_newlines, tokenize_words, RougeKind,
};

fn strings(words: &[&str]) -> Vec<String> {
    words.iter().map(|w| w.to_string()).collect()
}

#[test]
fn levenshtein_examples() {
    assert_eq!(levenshtein_distance("rain", "shine"), 3);
    assert_eq!(levenshtein_distance("the cat is on the bath", "the cat is on the mat"), 2);
    assert_eq!(levenshtein_distance("the cat is on the mat", "the cat is on the mat"), 0);
    assert_eq!(levenshtein_distance("", "abc"), 3);
    assert_eq!(levenshtein_distance("abcd", ""), 4);
    assert_eq!(levenshtein_distance("", ""), 0);
    assert_eq!(levenshtein_distance("kitten", "sitting"), 3);
}

#[test]
fn levenshtein_counts_characters_not_bytes() {
    assert_eq!(levenshtein_distance("héllo", "hello"), 1);
    assert_eq!(levenshtein_distance("日本語", "日本"), 1);
}

#[test]
fn tokenize_splits_on_whitespace() {
    assert_eq!(tokenize("the cat  is\ton the\nmat"), vec!["the", "cat", "is", "on", "the", "mat"]);
    assert_eq!(tokenize("   "), Vec::<&str>::new());
    assert_eq!(tokenize(""), Vec::<&str>::new());
    assert_eq!(tokenize(" lead and trail "), vec!["lead", "and", "trail"]);
    assert_eq!(tokenize("a\u{3000}b\u{00A0}c"), vec!["a", "b", "c"]);
    let text = "x  yz\u{2003}w";
    assert_eq!(tokenize(text), text.split_whitespace().collect::<Vec<_>>());
}

#[test]
fn lcs_of_token_sequences() {
    let a = strings(&["my", "name", "is", "john"]);
    let b = strings(&["is", "your", "name", "john"]);
    assert_eq!(lcs_length(&a, &b), 2);
    assert_eq!(lcs_length(&a, &a), 4);
    assert_eq!(lcs_length(&a, &[]), 0);
    let c = strings(&["a", "b", "c", "b", "d", "a", "b"]);
    let d = strings(&["b", "d", "c", "a", "b", "a"]);
    assert_eq!(lcs_length(&c, &d), 4);
}

#[test]
fn normalize_keeps_letters_and_digits() {
    assert_eq!(normalize_text("My name is John!"), "my name is john ");
    assert_eq!(normalize_text("A-b_C 42"), "a b c 42");
    assert_eq!(normalize_text("Ünïcode ß"), "Ünïcode ß");
    assert_eq!(normalize_text(""), "");
}

#[test]
fn tokenize_words_normalizes_first() {
    assert_eq!(
        tokenize_words("Is your name, John?"),
        strings(&["is", "your", "name", "john"])
    );
    assert_eq!(tokenize_words("..."), Vec::<String>::new());
}

#[test]
fn ngram_overlap_clips_counts() {
    let pred = strings(&["the", "the", "the", "cat"]);
    let target = strings(&["the", "cat", "the", "mat"]);
    assert_eq!(ngram_overlap(&pred, &target, 1), 3);
    assert_eq!(ngram_overlap(&pred, &target, 2), 1);
    assert_eq!(ngram_overlap(&pred, &target, 3), 0);
    assert_eq!(ngram_overlap(&pred, &target, 5), 0);
    let a = strings(&["my", "name", "is", "john"]);
    let b = strings(&["is", "your", "name", "john"]);
    assert_eq!(ngram_overlap(&a, &b, 1), 3);
    assert_eq!(ngram_overlap(&a, &b, 2), 0);
}

#[test]
fn rouge_kinds_name_their_slots() {
    let kinds = [RougeKind::Rouge1, RougeKind::Rouge2, RougeKind::RougeL, RougeKind::RougeLsum];
    let labels: Vec<&str> = kinds.iter().map(|k| k.label()).collect();
    let indices: Vec<usize> = kinds.iter().map(|k| k.index()).collect();
    assert_eq!(labels, vec!["rouge1", "rouge2", "rougeL", "rougeLsum"]);
    assert_eq!(indices, vec![0, 1, 2, 3]);
}

#[test]
fn line_separated_words_mark_line_ends() {
    assert_eq!(
        tokenize_with_newlines("The cat.\n\n  \nSat down!\n"),
        strings(&["the", "cat", "<n>", "sat", "down"])
    );
    assert_eq!(tokenize_with_newlines("one line"), strings(&["one", "line"]));
    assert_eq!(tokenize_with_newlines("\n \n"), Vec::<String>::new());
    assert_eq!(tokenize_with_newlines("a\n!!!\nb"), strings(&["a", "<n>", "<n>", "b"]));
}

#[test]
fn normalize_char_lowers_ascii_capitals_only() {
    assert_eq!(normalize_char('A', true), 'a');
    assert_eq!(normalize_char('z', true), 'z');
    assert_eq!(normalize_char('\u{c9}', true), '\u{c9}');
    assert_eq!(normalize_char('!', false), ' ');
    assert_eq!(normalize_char('Q', false), ' ');
}

#[test]
fn ngram_counts_of_short_sequences() {
    assert_eq!(count_ngrams(4, 1), 4);
    assert_eq!(count_ngrams(4, 2), 3);
    assert_eq!(count_ngrams(4, 4), 1);
    assert_eq!(count_ngrams(3, 4), 0);
}

#[test]
fn character_classes_agree_with_std() {
    for c in ['a', 'Z', ' ', '\t', '\n', '\u{85}', '\u{a0}', '\u{2003}', '\u{3000}', '\u{200b}', 'Q', '@', '[', '\u{c9}'] {
        assert_eq!(white_space(c), c.is_whitespace());
        assert_eq!(to_ascii_lowercase(c), c.to_ascii_lowercase());
    }
}
