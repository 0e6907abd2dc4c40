use ejaan::offsets::IndexedText;
use ejaan::tokenizer::belongs_to_word;
use ejaan::tokenizer::separates;
use ejaan::tokenizer::tokenize;
use ejaan::tokenizer::tokens_are_valid;
use ejaan::tokenizer::tokens_from_unit_ranges;
use ejaan::utils::ErrorKind;
use ejaan::utils::Token;

fn triples(tokens: &[Token]) -> Vec<(usize, usize, String)> {
    tokens.iter().map(|token| (token.start(), token.end(), token.word().to_string())).collect()
}

fn triple(start: usize, end: usize, word: &str) -> (usize, usize, String) {
    (start, end, word.to_string())
}

#[test]
fn empty_text_has_no_tokens() {
    assert!(tokenize("").is_empty());
}

#[test]
fn white_space_and_punctuation_have_no_tokens() {
    assert!(tokenize(" \t\r\n").is_empty());
    assert!(tokenize("... !? -- (“”) 、。").is_empty());
    assert!(tokenize("'").is_empty());
    assert!(tokenize("' '").is_empty());
}

#[test]
fn sentence_is_split_into_its_words() {
    let tokens = tokenize("This is a tset sentence.");
    assert_eq!(
        triples(&tokens),
        vec![
            triple(0, 3, "This"),
            triple(5, 6, "is"),
            triple(8, 8, "a"),
            triple(10, 13, "tset"),
            triple(15, 22, "sentence"),
        ]
    );
}

#[test]
fn trailing_punctuation_is_never_part_of_a_token() {
    assert_eq!(triples(&tokenize("end.")), vec![triple(0, 2, "end")]);
    assert_eq!(triples(&tokenize("end. ")), vec![triple(0, 2, "end")]);
    assert_eq!(triples(&tokenize("“Tset...”")), vec![triple(1, 4, "Tset")]);
    assert_eq!(triples(&tokenize("a,b")), vec![triple(0, 0, "a"), triple(2, 2, "b")]);
}

#[test]
fn apostrophe_joins_only_between_word_characters() {
    assert_eq!(triples(&tokenize("don't")), vec![triple(0, 4, "don't")]);
    assert_eq!(triples(&tokenize("don’t stop")), vec![triple(0, 4, "don’t"), triple(6, 9, "stop")]);
    assert_eq!(triples(&tokenize("'quoted'")), vec![triple(1, 6, "quoted")]);
    assert_eq!(triples(&tokenize("dogs' bowl")), vec![triple(0, 3, "dogs"), triple(6, 9, "bowl")]);
    assert_eq!(triples(&tokenize("a''b")), vec![triple(0, 0, "a"), triple(3, 3, "b")]);
}

#[test]
fn offsets_count_characters_not_bytes_or_units() {
    let tokens = tokenize("😀 naïve 😀😀 tset");
    assert_eq!(
        triples(&tokens),
        vec![triple(0, 0, "😀"), triple(2, 6, "naïve"), triple(8, 9, "😀😀"), triple(11, 14, "tset")]
    );
}

#[test]
fn tokenizing_twice_gives_the_same_tokens() {
    let text = "One text, checked twice; isn't it?";
    assert_eq!(tokenize(text), tokenize(text));
}

#[test]
fn fallback_takes_an_unspaced_run_as_one_token() {
    let tokens = tokenize("彼がその本を読んだ時");
    assert_eq!(triples(&tokens), vec![triple(0, 9, "彼がその本を読んだ時")]);
}

#[test]
fn native_segmentation_gives_one_token_per_word() {
    let text = IndexedText::new("彼がその本を読んだ時");
    let ranges = vec![(0, 1), (1, 1), (2, 2), (4, 1), (5, 1), (6, 3), (9, 1)];
    let tokens = tokens_from_unit_ranges(&text, &ranges).expect("the ranges fit the text");
    assert!(tokens.len() > 1);
    assert_eq!(
        triples(&tokens),
        vec![
            triple(0, 0, "彼"),
            triple(1, 1, "が"),
            triple(2, 3, "その"),
            triple(4, 4, "本"),
            triple(5, 5, "を"),
            triple(6, 8, "読んだ"),
            triple(9, 9, "時"),
        ]
    );
    assert!(tokens_are_valid(&text, &tokens));
}

#[test]
fn native_ranges_across_the_bmp_boundary_index_the_text() {
    let source = "𝒜𝒷 tset 😀 words";
    let text = IndexedText::new(source);
    let ranges = vec![(0, 4), (5, 4), (10, 2), (13, 5)];
    let tokens = tokens_from_unit_ranges(&text, &ranges).expect("the ranges fit the text");
    assert_eq!(
        triples(&tokens),
        vec![triple(0, 1, "𝒜𝒷"), triple(3, 6, "tset"), triple(8, 8, "😀"), triple(10, 14, "words")]
    );
    let chars: Vec<char> = source.chars().collect();
    for token in &tokens {
        let picked: String = chars[token.start()..=token.end()].iter().collect();
        assert_eq!(picked, token.word());
    }
}

#[test]
fn native_ranges_pass_over_empty_ones() {
    let text = IndexedText::new("ab cd");
    let tokens = tokens_from_unit_ranges(&text, &vec![(0, 0), (0, 2), (2, 0), (3, 2), (9, 0)])
        .expect("empty ranges are no error");
    assert_eq!(triples(&tokens), vec![triple(0, 1, "ab"), triple(3, 4, "cd")]);
    assert!(tokens_from_unit_ranges(&text, &Vec::new()).expect("no ranges, no tokens").is_empty());
}

#[test]
fn native_ranges_that_do_not_fit_are_an_error() {
    let text = IndexedText::new("a😀b");
    let prefix = "range does not fit the text or the spans before it: ";
    let cases = [
        (vec![(1, 1)], "1..2"),
        (vec![(2, 1)], "2..3"),
        (vec![(3, 2)], "3..5"),
        (vec![(4, 1)], "4..5"),
        (vec![(1, 2), (0, 1)], "0..1"),
        (vec![(0, 3), (1, 2)], "1..3"),
        (vec![(0, 1), (9, 0), (2, 1), (3, 1)], "2..3"),
    ];
    for (ranges, named) in cases {
        let error = tokens_from_unit_ranges(&text, &ranges).expect_err("the ranges do not fit");
        assert_eq!(error.kind(), ErrorKind::InvalidRange);
        assert_eq!(error.message(), format!("{}{}", prefix, named));
    }
}

#[test]
fn validity_of_tokens_is_decided() {
    let text = IndexedText::new("ab cd");
    let good = vec![Token::new(0, 1, "ab".to_string()), Token::new(3, 4, "cd".to_string())];
    assert!(tokens_are_valid(&text, &good));
    let adjacent = vec![Token::new(0, 1, "ab".to_string()), Token::new(2, 2, " ".to_string())];
    assert!(tokens_are_valid(&text, &adjacent));
    let swapped = vec![Token::new(3, 4, "cd".to_string()), Token::new(0, 1, "ab".to_string())];
    assert!(!tokens_are_valid(&text, &swapped));
    let overlapping = vec![Token::new(0, 1, "ab".to_string()), Token::new(1, 2, "b ".to_string())];
    assert!(!tokens_are_valid(&text, &overlapping));
    let wrong_word = vec![Token::new(0, 1, "cd".to_string())];
    assert!(!tokens_are_valid(&text, &wrong_word));
    let past_end = vec![Token::new(3, 5, "cd!".to_string())];
    assert!(!tokens_are_valid(&text, &past_end));
    assert!(tokens_are_valid(&text, &Vec::new()));
}

#[test]
fn separators_are_told_from_word_characters() {
    for c in [' ', '\t', '\n', '.', ',', '!', '?', '\'', '"', '-', '(', ')', '“', '”', '’', '…', '、', '。', '\u{A0}', '\u{3000}', '！'] {
        assert!(separates(c), "{:?}", c);
    }
    for c in ['a', 'Z', '0', '9', 'é', 'ß', '彼', 'の', 'я', '😀', '𝒜'] {
        assert!(!separates(c), "{:?}", c);
    }
}

#[test]
fn belonging_to_a_word_is_decided_by_place() {
    let chars: Vec<char> = "it's 'x'".chars().collect();
    let inside: Vec<bool> = (0..chars.len() + 1).map(|index| belongs_to_word(&chars, index)).collect();
    assert_eq!(inside, vec![true, true, true, true, false, false, true, false, false]);
}
