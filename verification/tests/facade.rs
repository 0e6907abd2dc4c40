use ejaan::aggregator::aggregate;
use ejaan::aggregator::spans_are_valid;
use ejaan::aggregator::token_matches;
use ejaan::aggregator::SpanCollector;
use ejaan::facade::construction_failure;
use ejaan::facade::guard_spans;
use ejaan::facade::language_outcome;
use ejaan::facade::oversized_span;
use ejaan::facade::to_host_offset;
use ejaan::facade::to_records;
use ejaan::offsets::IndexedText;
use ejaan::segmentation::SegmentationCheck;
use ejaan::segmentation::WordRequest;
use ejaan::stubs::StubSpellChecker;
use ejaan::aggregator::misplaced_range;
use ejaan::locale::initial_locale;
use ejaan::utils::decimal;
use ejaan::utils::digit_text;
use ejaan::utils::platform_name;
use ejaan::utils::EjaanError;
use ejaan::utils::Error;
use ejaan::utils::ErrorKind;
use ejaan::utils::Token;
use ejaan::utils::TokenWithSuggestions;
use ejaan::backend::settle;
use ejaan::BatchFailure;
use ejaan::DictionaryScope;
use ejaan::JsSuggestion;
use ejaan::SpellChecker;
use ejaan::SpellCheckerImpl;
use std::cell::RefCell;

/// A backend over a word list, built on the segmentation session.
struct ListBackend {
    words: RefCell<Vec<String>>,
    language: Option<String>,
    broken_positions: bool,
}

impl ListBackend {
    fn new() -> Self {
        let words = ["this", "is", "a", "test", "sentence"].iter().map(|word| word.to_string()).collect();
        ListBackend { words: RefCell::new(words), language: Some("en-US".to_string()), broken_positions: false }
    }
}

impl SpellCheckerImpl for ListBackend {
    fn check_word(&self, word: &str) -> EjaanError<bool> {
        Ok(self.words.borrow().contains(&word.to_lowercase()))
    }

    fn check_sentences(&self, sentence: &str) -> EjaanError<Vec<TokenWithSuggestions>> {
        if self.broken_positions {
            let token = Token::new(20, 23, "tset".to_string());
            return Ok(vec![TokenWithSuggestions::new(token, vec!["test".to_string()])]);
        }
        let mut check = SegmentationCheck::new(sentence);
        loop {
            match check.request() {
                WordRequest::Check(word) => check.verdict(self.check_word(&word)?),
                WordRequest::Suggest(word) => check.suggestions(self.suggest(&word)?),
                WordRequest::Finished => break,
            };
        }
        Ok(check.into_spans())
    }

    fn suggest(&self, word: &str) -> EjaanError<Vec<String>> {
        Ok(match word {
            "tset" => vec!["test".to_string(), "set".to_string()],
            _ => Vec::new(),
        })
    }

    fn add_word(&self, word: &str) -> EjaanError<()> {
        if word.contains(' ') {
            return Err(Error::new(format!("not a word: {}", word)));
        }
        self.words.borrow_mut().push(word.to_lowercase());
        Ok(())
    }

    fn dictionary_scope(&self) -> DictionaryScope {
        DictionaryScope::Session
    }

    fn remove_word(&self, word: &str) -> EjaanError<()> {
        self.words.borrow_mut().retain(|known| known != &word.to_lowercase());
        Ok(())
    }

    fn get_available_languages(&self) -> EjaanError<Vec<String>> {
        Ok(vec!["en-US".to_string(), "id-ID".to_string()])
    }

    fn get_language(&self) -> EjaanError<Option<String>> {
        Ok(self.language.clone())
    }

    fn set_language(&mut self, language: &str) -> EjaanError<bool> {
        if language == "broken" {
            return Err(Error::new("engine went away".to_string()));
        }
        if self.get_available_languages()?.iter().any(|known| known == language) {
            self.language = Some(language.to_string());
            Ok(true)
        } else {
            Ok(false)
        }
    }
}

fn checker() -> SpellChecker<ListBackend> {
    SpellChecker::new(ListBackend::new()).ok().expect("the backend answers")
}

#[test]
fn facade_checks_a_word() {
    let checker = checker();
    assert!(checker.check_word("test".to_string()).expect("the backend answers"));
    assert!(!checker.check_word("tset".to_string()).expect("the backend answers"));
}

#[test]
fn facade_reports_no_span_for_a_correct_sentence() {
    let records = checker().check_and_suggest("This is a test sentence.".to_string()).expect("a sound report");
    assert_eq!(records.len(), 0);
}

#[test]
fn facade_reports_the_typo_as_a_record() {
    let records = checker().check_and_suggest("This is a tset sentence.".to_string()).expect("a sound report");
    assert_eq!(records.len(), 1);
    assert_eq!(records[0].word, "tset");
    assert_eq!(records[0].start, 10);
    assert_eq!(records[0].end, 13);
    assert!(!records[0].suggestions.is_empty());
}

#[test]
fn facade_refuses_a_report_that_does_not_fit_the_text() {
    let mut backend = ListBackend::new();
    backend.broken_positions = true;
    let checker = SpellChecker::new(backend).ok().expect("the backend answers");
    let error = checker.check_and_suggest("This is a tset sentence.".to_string()).err().expect("the report is refused");
    assert_eq!(error.kind(), ErrorKind::InvalidRange);
    assert!(checker.check_sentences("This is a tset sentence.").is_err());
}

#[test]
fn unsupported_language_leaves_the_language_unchanged() {
    let mut checker = checker();
    assert_eq!(checker.language(), Some("en-US".to_string()));
    let error = checker.set_language("zz-ZZ".to_string()).expect_err("the language is unknown");
    assert_eq!(error.kind(), ErrorKind::UnsupportedOperation);
    assert_eq!(error.message(), "Failed to set language: zz-ZZ");
    assert_eq!(checker.language(), Some("en-US".to_string()));
}

#[test]
fn failing_engine_leaves_the_language_unchanged() {
    let mut checker = checker();
    let error = checker.set_language("broken".to_string()).expect_err("the engine fails");
    assert_eq!(error.kind(), ErrorKind::NativeEngineFailure);
    assert_eq!(error.message(), "engine went away");
    assert_eq!(checker.language(), Some("en-US".to_string()));
}

#[test]
fn supported_language_becomes_the_language() {
    let mut checker = checker();
    checker.set_language("id-ID".to_string()).expect("the language is known");
    assert_eq!(checker.language(), Some("id-ID".to_string()));
    assert_eq!(checker.available_languages().expect("the backend answers"), ["en-US", "id-ID"]);
}

#[test]
fn language_may_be_absent() {
    let mut backend = ListBackend::new();
    backend.language = None;
    let checker = SpellChecker::new(backend).ok().expect("the backend answers");
    assert_eq!(checker.language(), None);
}

#[test]
fn language_outcome_follows_the_answer() {
    assert!(language_outcome("en-US", Ok(true)).is_ok());
    let refused = language_outcome("zz-ZZ", Ok(false)).expect_err("not applied");
    assert_eq!((refused.kind(), refused.message()), (ErrorKind::UnsupportedOperation, "Failed to set language: zz-ZZ"));
    let cause = Error::with_kind(ErrorKind::NativeEngineFailure, "boom".to_string());
    let failed = language_outcome("en-US", Err(cause)).expect_err("the engine failed");
    assert_eq!((failed.kind(), failed.message()), (ErrorKind::NativeEngineFailure, "boom"));
}

#[test]
fn learned_word_is_accepted_afterwards() {
    let checker = checker();
    assert!(!checker.check_word("ejaan".to_string()).expect("the backend answers"));
    checker.add_word("ejaan".to_string()).expect("the backend learns");
    assert!(checker.check_word("ejaan".to_string()).expect("the backend answers"));
    assert!(checker.check_and_suggest("ejaan is a test".to_string()).expect("a sound report").is_empty());
    checker.remove_word("ejaan".to_string()).expect("the backend forgets");
    assert!(!checker.check_word("ejaan".to_string()).expect("the backend answers"));
}

#[test]
fn unlearning_an_unknown_word_is_no_error() {
    let checker = checker();
    checker.remove_word("neverlearned".to_string()).expect("nothing to forget, nothing failed");
    checker.remove_words(vec!["one".to_string(), "two".to_string()]).ok().expect("nothing failed");
}

#[test]
fn batch_stops_at_the_first_failure_and_names_it() {
    let checker = checker();
    let words = vec!["alpha".to_string(), "beta".to_string(), "not one".to_string(), "gamma".to_string()];
    let failure: BatchFailure = checker.add_words(words).expect_err("the third word fails");
    assert_eq!(failure.applied(), 2);
    assert_eq!(failure.word(), Some("not one"));
    assert_eq!(failure.error().kind(), ErrorKind::NativeEngineFailure);
    assert_eq!(failure.error().message(), "not a word: not one");
    assert!(checker.check_word("alpha".to_string()).expect("the backend answers"));
    assert!(checker.check_word("beta".to_string()).expect("the backend answers"));
    assert!(!checker.check_word("gamma".to_string()).expect("the backend answers"));
}

#[test]
fn batch_of_nothing_succeeds() {
    let checker = checker();
    assert!(checker.add_words(Vec::new()).is_ok());
    assert!(checker.remove_words(Vec::new()).is_ok());
}

#[test]
fn stub_refuses_a_batch_of_nothing_too() {
    let stub = StubSpellChecker::new("linux-x86_64-unix".to_string());
    let expected = "Function is not implemented for this platform: linux-x86_64-unix";
    let failure = stub.add_words(Vec::new()).expect_err("refused");
    assert!(failure.error().message().starts_with("Function is not implemented for this platform: "));
    assert_eq!((failure.applied(), failure.word(), failure.error().message()), (0, None, expected));
    assert_eq!(failure.error().kind(), ErrorKind::UnsupportedOperation);
    let failure = stub.remove_words(Vec::new()).expect_err("refused");
    assert_eq!((failure.applied(), failure.word(), failure.error().message()), (0, None, expected));
    let checker_over_nothing = SpellChecker::with_language(stub, Ok(None)).ok().expect("ready");
    assert!(checker_over_nothing.add_words(Vec::new()).is_err());
    assert!(checker_over_nothing.remove_words(Vec::new()).is_err());
}

#[test]
fn batch_applies_every_word_when_none_fails() {
    let checker = checker();
    checker.add_words(vec!["alpha".to_string(), "beta".to_string()]).ok().expect("both words are taken");
    assert!(checker.check_word("beta".to_string()).expect("the backend answers"));
}

#[test]
fn stub_refuses_everything() {
    let mut stub = StubSpellChecker::new("linux-x86_64-unix".to_string());
    let expected = "Function is not implemented for this platform: linux-x86_64-unix";
    assert_eq!(stub.refuse().message(), expected);
    assert_eq!(stub.refuse().kind(), ErrorKind::UnsupportedOperation);
    assert_eq!(stub.check_word("test").expect_err("refused").message(), expected);
    assert_eq!(stub.check_sentences("test").err().expect("refused").message(), expected);
    assert_eq!(stub.suggest("test").expect_err("refused").message(), expected);
    assert_eq!(stub.add_word("test").expect_err("refused").message(), expected);
    assert_eq!(stub.remove_word("test").expect_err("refused").message(), expected);
    assert_eq!(stub.get_available_languages().expect_err("refused").message(), expected);
    assert_eq!(stub.get_language().expect_err("refused").message(), expected);
    assert_eq!(stub.set_language("en-US").expect_err("refused").message(), expected);
    let failure = stub.add_words(vec!["one".to_string()]).expect_err("refused");
    assert_eq!((failure.applied(), failure.word(), failure.error().message()), (0, None, expected));
    let failure = stub.remove_words(vec!["one".to_string(), "two".to_string()]).expect_err("refused");
    assert_eq!((failure.applied(), failure.word(), failure.error().message()), (0, None, expected));
}

#[test]
fn stub_cannot_be_taken_into_service() {
    let error = SpellChecker::new(StubSpellChecker::new("plan9".to_string())).err().expect("no language, no checker");
    assert_eq!(error.kind(), ErrorKind::ConstructionFailure);
    assert_eq!(
        error.message(),
        "Failed to create spell checker: Function is not implemented for this platform: plan9"
    );
    let cause = Error::new("COM is not there".to_string());
    assert_eq!(construction_failure(&cause).message(), "Failed to create spell checker: COM is not there");
}

#[test]
fn errors_carry_kind_and_message() {
    let plain = Error::new("engine said no".to_string());
    assert_eq!((plain.kind(), plain.message()), (ErrorKind::NativeEngineFailure, "engine said no"));
    let ranged = Error::with_kind(ErrorKind::InvalidRange, "bad range".to_string());
    assert_eq!((ranged.kind(), ranged.message()), (ErrorKind::InvalidRange, "bad range"));
    let copy = ranged.clone();
    assert_eq!((copy.kind(), copy.message()), (ErrorKind::InvalidRange, "bad range"));
    let missing = Error::unimplemented("macos-aarch64-unix");
    assert_eq!(missing.kind(), ErrorKind::UnsupportedOperation);
    assert_eq!(missing.message(), "Function is not implemented for this platform: macos-aarch64-unix");
}

#[test]
fn records_keep_order_words_and_suggestions() {
    let spans = vec![
        aggregate(Token::new(0, 2, "teh".to_string()), vec!["the".to_string()]),
        aggregate(Token::new(8, 11, "tset".to_string()), vec!["test".to_string(), "set".to_string()]),
        aggregate(Token::new(13, 15, "qqq".to_string()), Vec::new()),
    ];
    let records: Vec<JsSuggestion> = to_records(&spans).expect("every span fits");
    let plain: Vec<(u32, u32, &str, &[String])> = records
        .iter()
        .map(|record| (record.start, record.end, record.word.as_str(), record.suggestions.as_slice()))
        .collect();
    assert_eq!(plain[0], (0, 2, "teh", &["the".to_string()][..]));
    assert_eq!(plain[1], (8, 11, "tset", &["test".to_string(), "set".to_string()][..]));
    assert_eq!(plain[2], (13, 15, "qqq", &[][..]));
    let single = JsSuggestion::from_span(&spans[1]).expect("the span fits");
    assert_eq!((single.start, single.end, single.word.as_str()), (8, 11, "tset"));
}

#[test]
fn host_offsets_must_fit_32_bits() {
    assert_eq!(to_host_offset(0), Some(0));
    assert_eq!(to_host_offset(13), Some(13));
    assert_eq!(to_host_offset(u32::MAX as usize), Some(u32::MAX));
    if usize::BITS > 32 {
        assert_eq!(to_host_offset(u32::MAX as usize + 1), None);
        assert_eq!(to_host_offset(usize::MAX), None);
    }
}

#[test]
fn records_refuse_a_span_that_does_not_fit() {
    if usize::BITS > 32 {
        let past = u32::MAX as usize + 1;
        let spans = vec![
            aggregate(Token::new(8, 11, "tset".to_string()), Vec::new()),
            aggregate(Token::new(past - 2, past, "far".to_string()), Vec::new()),
            aggregate(Token::new(past + 2, past + 2, "x".to_string()), Vec::new()),
        ];
        assert!(JsSuggestion::from_span(&spans[0]).is_some());
        assert!(JsSuggestion::from_span(&spans[1]).is_none());
        assert!(JsSuggestion::from_span(&spans[2]).is_none());
        let error = to_records(&spans).err().expect("the second span does not fit");
        assert_eq!(error.kind(), ErrorKind::InvalidRange);
        assert_eq!(error.message(), "span does not fit the 32 bits of the host: 4294967294..=4294967296");
        assert_eq!(oversized_span(&spans[2]).message(), "span does not fit the 32 bits of the host: 4294967298..=4294967298");
    }
    assert!(to_records(&Vec::new()).expect("nothing to refuse").is_empty());
}

#[test]
fn records_of_a_report_are_ascending_and_index_the_text() {
    let text = "zzz this “tset” is 😀 yyy.";
    let records = checker().check_and_suggest(text.to_string()).expect("a sound report");
    assert_eq!(records.len(), 4);
    let chars: Vec<char> = text.chars().collect();
    for record in &records {
        assert!(record.start <= record.end);
        let picked: String = chars[record.start as usize..=record.end as usize].iter().collect();
        assert_eq!(picked, record.word);
    }
    for pair in records.windows(2) {
        assert!(pair[0].start < pair[1].start);
        assert!(pair[0].end < pair[1].start);
    }
}

#[test]
fn guard_lets_sound_reports_through() {
    let text = "teh the tset";
    let spans = vec![
        aggregate(Token::new(0, 2, "teh".to_string()), vec!["the".to_string()]),
        aggregate(Token::new(8, 11, "tset".to_string()), vec!["test".to_string()]),
    ];
    let kept = guard_spans(text, spans).ok().expect("the report is sound");
    assert_eq!(kept.len(), 2);
    assert_eq!(kept[1].token().word(), "tset");
    assert_eq!(kept[1].suggestions(), ["test"]);
    assert!(guard_spans(text, Vec::new()).ok().expect("nothing flagged").is_empty());
}

#[test]
fn guard_stops_unsound_reports() {
    let text = "teh the tset";
    let reports = vec![
        vec![aggregate(Token::new(8, 11, "tset".to_string()), Vec::new()), aggregate(Token::new(0, 2, "teh".to_string()), Vec::new())],
        vec![aggregate(Token::new(0, 2, "teh".to_string()), Vec::new()), aggregate(Token::new(2, 4, "h t".to_string()), Vec::new())],
        vec![aggregate(Token::new(0, 2, "the".to_string()), Vec::new())],
        vec![aggregate(Token::new(8, 12, "tset!".to_string()), Vec::new())],
        vec![aggregate(Token::new(4, 5, "tset".to_string()), Vec::new())],
    ];
    let indexed = IndexedText::new(text);
    for report in reports {
        assert!(!spans_are_valid(&indexed, &report));
        let error = guard_spans(text, report).err().expect("the report is unsound");
        assert_eq!(error.kind(), ErrorKind::InvalidRange);
        assert_eq!(error.message(), "span does not fit the text or the spans before it");
    }
}

#[test]
fn token_matching_compares_place_and_word() {
    let text = IndexedText::new("a😀 tset");
    assert!(token_matches(&text, &Token::new(3, 6, "tset".to_string())));
    assert!(token_matches(&text, &Token::new(1, 1, "😀".to_string())));
    assert!(!token_matches(&text, &Token::new(4, 7, "tset".to_string())));
    assert!(!token_matches(&text, &Token::new(3, 6, "test".to_string())));
    assert!(!token_matches(&text, &Token::new(3, 6, "tse".to_string())));
    assert!(!token_matches(&text, &Token::new(3, 7, "tset!".to_string())));
}

#[test]
fn collector_takes_only_what_fits() {
    let mut collector = SpanCollector::new("teh the tset");
    assert!(collector.is_clean());
    assert_eq!(collector.floor(), 0);
    assert_eq!(collector.text().as_str(), "teh the tset");
    collector.accept(Token::new(4, 6, "the".to_string()), Vec::new()).expect("the span fits");
    assert_eq!(collector.floor(), 7);
    assert!(!collector.accepts(&Token::new(0, 2, "teh".to_string())));
    assert!(!collector.accepts(&Token::new(6, 8, "e t".to_string())));
    assert!(collector.accepts(&Token::new(7, 7, " ".to_string())));
    let error = collector.accept(Token::new(0, 2, "teh".to_string()), Vec::new()).expect_err("behind the floor");
    assert_eq!(error.kind(), ErrorKind::InvalidRange);
    assert_eq!(collector.floor(), 7);
    collector.accept(Token::new(8, 11, "tset".to_string()), vec!["test".to_string()]).expect("the span fits");
    assert!(!collector.is_clean());
    let spans = collector.into_spans();
    assert_eq!(spans.len(), 2);
    assert_eq!(spans[0].token().word(), "the");
    assert_eq!(spans[1].suggestions(), ["test"]);
}

#[test]
fn batch_step_names_the_failing_word() {
    let words = vec!["one".to_string(), "two".to_string(), "three".to_string()];
    assert!(settle(&words, 1, Ok(())).is_ok());
    let failure = settle(&words, 1, Err(Error::new("no".to_string()))).expect_err("the answer was a failure");
    assert_eq!((failure.applied(), failure.word(), failure.error().message()), (1, Some("two"), "no"));
    let built = BatchFailure::new(2, "three".to_string(), Error::with_kind(ErrorKind::UnsupportedOperation, "cannot".to_string()));
    assert_eq!((built.applied(), built.word(), built.error().kind()), (2, Some("three"), ErrorKind::UnsupportedOperation));
    let refused = BatchFailure::refusal(Error::unimplemented("plan9"));
    assert_eq!((refused.applied(), refused.word(), refused.error().kind()), (0, None, ErrorKind::UnsupportedOperation));
}

#[test]
fn dictionary_scope_is_what_the_backend_declares() {
    assert_eq!(checker().dictionary_scope(), DictionaryScope::Session);
    assert_eq!(StubSpellChecker::new("plan9".to_string()).dictionary_scope(), DictionaryScope::Unsupported);
}

#[test]
fn checker_is_set_up_from_the_backends_answer() {
    let ready = SpellChecker::with_language(ListBackend::new(), Ok(Some("id-ID".to_string()))).ok().expect("ready");
    assert_eq!(ready.language(), Some("id-ID".to_string()));
    let silent = SpellChecker::with_language(ListBackend::new(), Ok(None)).ok().expect("ready");
    assert_eq!(silent.language(), None);
    let cause = Error::new("engine is not there".to_string());
    let error = SpellChecker::with_language(ListBackend::new(), Err(cause)).err().expect("not ready");
    assert_eq!(error.kind(), ErrorKind::ConstructionFailure);
    assert_eq!(error.message(), "Failed to create spell checker: engine is not there");
}

#[test]
fn language_change_is_settled_by_the_answer() {
    let mut checker = checker();
    let refused = checker.settle_language("zz-ZZ".to_string(), Ok(false)).expect_err("not taken");
    assert_eq!((refused.kind(), refused.message()), (ErrorKind::UnsupportedOperation, "Failed to set language: zz-ZZ"));
    assert_eq!(checker.language(), Some("en-US".to_string()));
    let failed = checker.settle_language("id-ID".to_string(), Err(Error::new("gone".to_string()))).expect_err("failed");
    assert_eq!((failed.kind(), failed.message()), (ErrorKind::NativeEngineFailure, "gone"));
    assert_eq!(checker.language(), Some("en-US".to_string()));
    checker.settle_language("id-ID".to_string(), Ok(true)).expect("taken");
    assert_eq!(checker.language(), Some("id-ID".to_string()));
}

#[test]
fn suggestions_keep_the_order_of_the_backend() {
    let checker = checker();
    assert_eq!(checker.suggest("tset".to_string()).expect("the backend answers"), ["test", "set"]);
    assert!(checker.suggest("qqq".to_string()).expect("none is no failure").is_empty());
    let records = checker.check_and_suggest("a tset".to_string()).expect("a sound report");
    assert_eq!(records[0].suggestions, ["test", "set"]);
}

#[test]
fn numbers_are_written_in_decimal() {
    assert_eq!(decimal(0), "0");
    assert_eq!(decimal(7), "7");
    assert_eq!(decimal(10), "10");
    assert_eq!(decimal(1234567890), "1234567890");
    assert_eq!(decimal(u128::MAX), u128::MAX.to_string());
    let digits: Vec<&str> = (0..10).map(digit_text).collect();
    assert_eq!(digits, ["0", "1", "2", "3", "4", "5", "6", "7", "8", "9"]);
}

#[test]
fn platform_is_named_by_its_three_parts() {
    assert_eq!(platform_name("linux", "x86_64", "unix"), "linux-x86_64-unix");
    assert_eq!(platform_name("", "", ""), "--");
    let error = Error::unimplemented_on("linux", "x86_64", "unix");
    assert_eq!(error.kind(), ErrorKind::UnsupportedOperation);
    assert_eq!(error.message(), "Function is not implemented for this platform: linux-x86_64-unix");
}

#[test]
fn range_error_names_the_range() {
    let error = misplaced_range(10, 4);
    assert_eq!(error.kind(), ErrorKind::InvalidRange);
    assert_eq!(error.message(), "range does not fit the text or the spans before it: 10..14");
    assert_eq!(
        misplaced_range(usize::MAX, usize::MAX).message(),
        format!("range does not fit the text or the spans before it: {}..{}", usize::MAX, usize::MAX as u128 * 2)
    );
}

#[test]
fn starting_locale_is_read_from_the_buffer() {
    let mut buffer = [0u16; 256];
    assert_eq!(initial_locale(&buffer), "en-US");
    assert_eq!(initial_locale(&[]), "en-US");
    for (at, unit) in "id-ID".encode_utf16().enumerate() {
        buffer[at] = unit;
    }
    assert_eq!(initial_locale(&buffer), "id-ID");
    let full: Vec<u16> = "sr-Latn-RS".encode_utf16().collect();
    assert_eq!(initial_locale(&full), "sr-Latn-RS");
    assert_eq!(initial_locale(&[0x61, 0, 0x62, 0]), "a");
    assert_eq!(initial_locale(&[0, 0x62, 0]), "");
    assert_eq!(initial_locale(&[0x61, 0xD83D, 0xDE00, 0xD800, 0x62]), "a😀\u{FFFD}b");
}
