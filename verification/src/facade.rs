//! The single entry point: one checker over whichever backend the
//! platform offers.
//!
//! The facade owns the active language, and it holds every report of a
//! backend against the text before it hands the report on, so that a
//! backend with faulty positions is noticed and never believed.

use crate::aggregator::misplaced_span;
use crate::aggregator::misplaced_span_message;
use crate::aggregator::spans_are_valid;
use crate::aggregator::spans_valid;
use crate::backend::add_answered;
use crate::backend::is_outcome_of_adding;
use crate::backend::is_outcome_of_removing;
use crate::backend::lemma_same_answers;
use crate::backend::remove_answered;
use crate::backend::BatchFailure;
use crate::backend::DictionaryScope;
use crate::backend::SpellCheckerImpl;
use crate::offsets::IndexedText;
use crate::utils::clone_strings;
use crate::utils::decimal;
use crate::utils::decimal_digits;
use crate::utils::EjaanError;
use crate::utils::Error;
use crate::utils::ErrorKind;
use crate::utils::ErrorView;
use crate::utils::FlaggedSpanView;
use crate::utils::TokenWithSuggestions;
use vstd::prelude::*;

verus! {

/// The mathematical value of a [`JsSuggestion`].
pub struct SuggestionView {
    /// Code-point offset of the first character of the word.
    pub start: u32,
    /// Code-point offset of its last character (inclusive).
    pub end: u32,
    /// The misspelled word.
    pub word: Seq<char>,
    /// The candidate replacements, most relevant first.
    pub suggestions: Seq<Seq<char>>,
}

/// A flagged span as it is handed to the host: a plain record.
#[derive(Debug)]
pub struct JsSuggestion {
    /// The start index of the misspelled word in the text that was checked.
    pub start: u32,
    /// The end index of the misspelled word in the text that was checked.
    pub end: u32,
    /// The misspelled word.
    pub word: String,
    /// A list of suggested corrections for the misspelled word.
    pub suggestions: Vec<String>,
}

impl View for JsSuggestion {
    type V = SuggestionView;

    open spec fn view(&self) -> SuggestionView {
        SuggestionView {
            start: self.start,
            end: self.end,
            word: self.word@,
            suggestions: self.suggestions.deep_view(),
        }
    }
}

impl DeepView for JsSuggestion {
    type V = SuggestionView;

    open spec fn deep_view(&self) -> SuggestionView {
        self@
    }
}

/// An offset as the host receives it: itself where it fits 32 bits, and
/// nothing where it does not.
pub open spec fn host_offset(offset: nat) -> Option<u32> {
    if offset <= u32::MAX {
        Some(offset as u32)
    } else {
        None
    }
}

/// Whether both ends of a span fit the 32 bits that the host receives.
pub open spec fn fits_host(span: FlaggedSpanView) -> bool {
    span.token.start <= u32::MAX && span.token.end <= u32::MAX
}

/// The record that the host receives for a flagged span that fits.
pub open spec fn record_of(span: FlaggedSpanView) -> SuggestionView
    recommends
        fits_host(span),
{
    SuggestionView {
        start: span.token.start as u32,
        end: span.token.end as u32,
        word: span.token.word,
        suggestions: span.suggestions,
    }
}

/// The records that the host receives for a list of flagged spans, in
/// the same order.
pub open spec fn records_of(spans: Seq<FlaggedSpanView>) -> Seq<SuggestionView> {
    Seq::new(spans.len(), |k: int| record_of(spans[k]))
}

/// Whether the span with the given index is the first that does not fit
/// what the host receives.
pub open spec fn is_first_oversized(spans: Seq<FlaggedSpanView>, index: int) -> bool {
    &&& 0 <= index < spans.len()
    &&& !fits_host(spans[index])
    &&& forall|k: int| 0 <= k < index ==> fits_host(#[trigger] spans[k])
}

/// The index of the first span that does not fit what the host receives.
pub open spec fn first_oversized(spans: Seq<FlaggedSpanView>) -> int {
    choose|index: int| is_first_oversized(spans, index)
}

/// There is at most one first span that does not fit.
pub proof fn lemma_first_oversized(spans: Seq<FlaggedSpanView>, index: int)
    requires
        is_first_oversized(spans, index),
    ensures
        first_oversized(spans) == index,
{
    let other = first_oversized(spans);
    if other < index {
        assert(fits_host(spans[other]));
    } else if index < other {
        assert(fits_host(spans[index]));
    }
}

/// The text put in front of the span by [`oversized_span`].
pub open spec fn oversized_span_prefix() -> Seq<char> {
    "span does not fit the 32 bits of the host: "@
}

/// The error for a span that does not fit what the host receives: it
/// names the span by its start and its end, as in `10..=13`.
pub open spec fn oversized_span_error(span: FlaggedSpanView) -> ErrorView {
    ErrorView {
        kind: ErrorKind::InvalidRange,
        message: oversized_span_prefix() + decimal_digits(span.token.start) + seq!['.', '.', '=']
            + decimal_digits(span.token.end),
    }
}

/// The error for a span that does not fit what the host receives.
pub fn oversized_span(span: &TokenWithSuggestions) -> (error: Error)
    ensures
        error@ == oversized_span_error(span@),
{
    proof {
        reveal_strlit("..=");
    }
    let mut message = String::from_str("span does not fit the 32 bits of the host: ");
    message.append(decimal(span.token().start() as u128).as_str());
    message.append("..=");
    message.append(decimal(span.token().end() as u128).as_str());
    assert(message@ =~= oversized_span_error(span@).message);
    Error::with_kind(ErrorKind::InvalidRange, message)
}

/// An offset as the host receives it.
pub fn to_host_offset(offset: usize) -> (narrow: Option<u32>)
    ensures
        narrow == host_offset(offset as nat),
{
    if offset <= 0xFFFF_FFFF {
        Some(offset as u32)
    } else {
        None
    }
}

impl JsSuggestion {
    /// The record for a flagged span, or nothing where an end of the span
    /// does not fit the 32 bits that the host receives.
    pub fn from_span(span: &TokenWithSuggestions) -> (record: Option<Self>)
        ensures
            record is Some <==> fits_host(span@),
            record is Some ==> record->0@ == record_of(span@),
    {
        let start = match to_host_offset(span.token().start()) {
            Some(start) => start,
            None => { return None; },
        };
        let end = match to_host_offset(span.token().end()) {
            Some(end) => end,
            None => { return None; },
        };
        Some(
            JsSuggestion {
                start,
                end,
                word: String::from_str(span.token().word()),
                suggestions: clone_strings(span.suggestions()),
            },
        )
    }
}

/// Whether `outcome` holds the records for the spans: one record for each
/// span, in the same order, where every span fits what the host receives,
/// and else an error that names the first span that does not.
pub open spec fn is_records_outcome(
    spans: Seq<FlaggedSpanView>,
    outcome: EjaanError<Vec<JsSuggestion>>,
) -> bool {
    if forall|k: int| 0 <= k < spans.len() ==> fits_host(#[trigger] spans[k]) {
        outcome is Ok && outcome->Ok_0.deep_view() == records_of(spans)
    } else {
        &&& outcome is Err
        &&& is_first_oversized(spans, first_oversized(spans))
        &&& outcome->Err_0@ == oversized_span_error(spans[first_oversized(spans)])
    }
}

/// The records that the host receives for a list of flagged spans, in
/// the same order. A span that does not fit what the host receives is an
/// error.
pub fn to_records(spans: &Vec<TokenWithSuggestions>) -> (outcome: EjaanError<Vec<JsSuggestion>>)
    ensures
        is_records_outcome(spans.deep_view(), outcome),
{
    let ghost all = spans.deep_view();
    let mut records: Vec<JsSuggestion> = Vec::new();
    let mut i: usize = 0;
    while i < spans.len()
        invariant
            i <= spans.len(),
            all == spans.deep_view(),
            records.len() == i,
            forall|k: int| 0 <= k < i ==> fits_host(#[trigger] all[k]),
            forall|k: int| 0 <= k < i ==> records[k]@ == record_of(all[k]),
        decreases spans.len() - i,
    {
        proof {
            assert(all[i as int] == spans[i as int]@);
        }
        match JsSuggestion::from_span(&spans[i]) {
            Some(record) => {
                records.push(record);
            },
            None => {
                proof {
                    assert(is_first_oversized(all, i as int));
                    lemma_first_oversized(all, i as int);
                }
                return Err(oversized_span(&spans[i]));
            },
        }
        i += 1;
    }
    assert(records.deep_view() =~= records_of(all));
    Ok(records)
}

/// Whether the records are a sound report on the text: each lies in the
/// text and holds the word found there, and they are sorted by their
/// start and never overlap.
pub open spec fn records_valid(text: Seq<char>, records: Seq<SuggestionView>) -> bool {
    &&& forall|k: int|
        0 <= k < records.len() ==> {
            &&& (#[trigger] records[k]).start <= records[k].end < text.len()
            &&& records[k].word == text.subrange(records[k].start as int, records[k].end + 1)
        }
    &&& forall|j: int, k: int|
        0 <= j < k < records.len() ==> (#[trigger] records[j]).end < (#[trigger] records[k]).start
}

/// The records for a sound report of spans that fit what the host
/// receives are a sound report themselves: the order of the spans and
/// their places in the text are kept.
pub proof fn lemma_records_valid(text: Seq<char>, spans: Seq<FlaggedSpanView>)
    requires
        spans_valid(text, spans),
        forall|k: int| 0 <= k < spans.len() ==> fits_host(#[trigger] spans[k]),
    ensures
        records_valid(text, records_of(spans)),
        forall|j: int, k: int|
            0 <= j < k < spans.len() ==> (#[trigger] records_of(spans)[j]).start < (
            #[trigger] records_of(spans)[k]).start,
{
    let records = records_of(spans);
    assert forall|k: int| 0 <= k < records.len() implies {
        &&& (#[trigger] records[k]).start <= records[k].end < text.len()
        &&& records[k].word == text.subrange(records[k].start as int, records[k].end + 1)
    } by {
        assert(spans[k].token.matches_text(text));
        assert(fits_host(spans[k]));
    }
    assert forall|j: int, k: int| 0 <= j < k < records.len() implies (#[trigger] records[j]).end < (
    #[trigger] records[k]).start by {
        assert(spans[j].token.end < spans[k].token.start);
        assert(fits_host(spans[j]));
        assert(fits_host(spans[k]));
    }
    assert forall|j: int, k: int| 0 <= j < k < spans.len() implies (#[trigger] records[j]).start < (
    #[trigger] records[k]).start by {
        assert(spans[j].token.end < spans[k].token.start);
        assert(spans[j].token.matches_text(text));
        assert(fits_host(spans[j]));
        assert(fits_host(spans[k]));
    }
}

/// Holds a backend's report against the text: a sound report is handed
/// on as it is, any other is an error.
pub fn guard_spans(text: &str, spans: Vec<TokenWithSuggestions>) -> (outcome: EjaanError<
    Vec<TokenWithSuggestions>,
>)
    ensures
        outcome is Ok <==> spans_valid(text@, spans.deep_view()),
        outcome is Ok ==> outcome->Ok_0 == spans,
        outcome is Ok ==> outcome->Ok_0.deep_view() == spans.deep_view(),
        outcome is Err ==> outcome->Err_0@ == (ErrorView {
            kind: ErrorKind::InvalidRange,
            message: misplaced_span_message(),
        }),
{
    let indexed = IndexedText::new(text);
    if spans_are_valid(&indexed, &spans) {
        Ok(spans)
    } else {
        Err(misplaced_span())
    }
}

/// The text put in front of the language by [`language_outcome`].
pub open spec fn unsupported_language_prefix() -> Seq<char> {
    "Failed to set language: "@
}

/// What a change of language comes to, given the backend's answer: done
/// if the backend took the language, an error that names the language if
/// it did not, and the backend's own error if it failed.
pub fn language_outcome(language: &str, answer: EjaanError<bool>) -> (outcome: EjaanError<()>)
    ensures
        outcome is Ok <==> answer == Ok::<bool, Error>(true),
        answer == Ok::<bool, Error>(false) ==> outcome is Err && outcome->Err_0@ == (ErrorView {
            kind: ErrorKind::UnsupportedOperation,
            message: unsupported_language_prefix() + language@,
        }),
        answer is Err ==> outcome is Err && outcome->Err_0@ == answer->Err_0@,
{
    match answer {
        Ok(true) => Ok(()),
        Ok(false) => {
            let mut message = String::from_str("Failed to set language: ");
            message.append(language);
            Err(Error::with_kind(ErrorKind::UnsupportedOperation, message))
        },
        Err(error) => Err(error),
    }
}

/// The text put in front of the backend's message when a checker cannot
/// be set up.
pub open spec fn construction_prefix() -> Seq<char> {
    "Failed to create spell checker: "@
}

/// The error for a backend that cannot be brought up, with the backend's
/// own message in it.
pub fn construction_failure(cause: &Error) -> (error: Error)
    ensures
        error@ == (ErrorView {
            kind: ErrorKind::ConstructionFailure,
            message: construction_prefix() + cause@.message,
        }),
{
    let mut message = String::from_str("Failed to create spell checker: ");
    message.append(cause.message());
    Error::with_kind(ErrorKind::ConstructionFailure, message)
}

/// Whether `outcome` is what the facade makes of a backend's report on
/// the text: a sound report is handed on as it is, another report is an
/// error, and an error of the backend is handed on as it is.
pub open spec fn is_guarded(
    text: Seq<char>,
    report: EjaanError<Vec<TokenWithSuggestions>>,
    outcome: EjaanError<Vec<TokenWithSuggestions>>,
) -> bool {
    match report {
        Ok(spans) => {
            &&& outcome is Ok <==> spans_valid(text, spans.deep_view())
            &&& outcome is Ok ==> outcome->Ok_0 == spans
            &&& outcome is Err ==> outcome->Err_0@ == (ErrorView {
                kind: ErrorKind::InvalidRange,
                message: misplaced_span_message(),
            })
        },
        Err(error) => outcome is Err && outcome->Err_0 == error,
    }
}

/// Whether `outcome` holds the records for what the facade makes of a
/// backend's report on the text: the records of a sound report whose
/// spans fit what the host receives, an error for any other report, and
/// the backend's error as it is.
pub open spec fn is_recorded(
    text: Seq<char>,
    report: EjaanError<Vec<TokenWithSuggestions>>,
    outcome: EjaanError<Vec<JsSuggestion>>,
) -> bool {
    match report {
        Ok(spans) => if spans_valid(text, spans.deep_view()) {
            is_records_outcome(spans.deep_view(), outcome)
        } else {
            outcome is Err && outcome->Err_0@ == (ErrorView {
                kind: ErrorKind::InvalidRange,
                message: misplaced_span_message(),
            })
        },
        Err(error) => outcome is Err && outcome->Err_0 == error,
    }
}

/// Whether `outcome` is what a change to the language comes to, given the
/// backend's answer: done if the backend took the language, an error that
/// names the language if it did not, and the backend's own error if it
/// failed.
pub open spec fn is_language_outcome(
    language: Seq<char>,
    answer: EjaanError<bool>,
    outcome: EjaanError<()>,
) -> bool {
    match answer {
        Ok(taken) => if taken {
            outcome is Ok
        } else {
            outcome is Err && outcome->Err_0@ == (ErrorView {
                kind: ErrorKind::UnsupportedOperation,
                message: unsupported_language_prefix() + language,
            })
        },
        Err(error) => outcome is Err && outcome->Err_0@ == error@,
    }
}

/// The mathematical value of a [`SpellChecker`]: what it knows of itself
/// without asking its backend.
pub struct CheckerView {
    /// The active language, if one has been settled.
    pub language: Option<Seq<char>>,
}

/// The main spell checker: one backend, and the language that is active
/// on it.
pub struct SpellChecker<B: SpellCheckerImpl> {
    inner: B,
    language: Option<String>,
}

impl<B: SpellCheckerImpl> View for SpellChecker<B> {
    type V = CheckerView;

    closed spec fn view(&self) -> CheckerView {
        CheckerView {
            language: match self.language {
                Some(language) => Some(language@),
                None => None,
            },
        }
    }
}

impl<B: SpellCheckerImpl> SpellChecker<B> {
    /// The backend that the checker works on.
    pub closed spec fn backend(&self) -> B {
        self.inner
    }

    /// Whether `outcome` is what setting a checker up over the backend
    /// comes to, given the backend's answer to the question which
    /// language it starts with: a checker over that backend with that
    /// language, or an error that holds the backend's message.
    pub open spec fn is_set_up(
        inner: B,
        answer: EjaanError<Option<String>>,
        outcome: EjaanError<Self>,
    ) -> bool {
        match answer {
            Ok(language) => {
                &&& outcome is Ok
                &&& outcome->Ok_0.backend() == inner
                &&& outcome->Ok_0@.language is Some <==> language is Some
                &&& language is Some ==> outcome->Ok_0@.language->0 == language->0@
            },
            Err(cause) => outcome is Err && outcome->Err_0@ == (ErrorView {
                kind: ErrorKind::ConstructionFailure,
                message: construction_prefix() + cause@.message,
            }),
        }
    }

    /// Whether the checker is what a change to the language leaves of the
    /// checker `before`, given the backend's answer: the language is the
    /// active one if the backend took it, and the active language is what
    /// it was if the backend did not take it or failed.
    pub open spec fn is_after_language(
        before: CheckerView,
        language: Seq<char>,
        answer: EjaanError<bool>,
        after: CheckerView,
    ) -> bool {
        if answer == Ok::<bool, Error>(true) {
            after.language == Some(language)
        } else {
            after == before
        }
    }

    /// Sets a checker up over a backend, given the backend's answer to
    /// the question which language it starts with. A backend that could
    /// not answer is not taken into service.
    pub fn with_language(inner: B, answer: EjaanError<Option<String>>) -> (outcome: EjaanError<Self>)
        ensures
            Self::is_set_up(inner, answer, outcome),
            outcome is Ok <==> answer is Ok,
            outcome is Ok ==> (outcome->Ok_0@.language is Some <==> answer->Ok_0 is Some),
            outcome is Ok && answer->Ok_0 is Some ==> outcome->Ok_0@.language->0
                == answer->Ok_0->0@,
            outcome is Err ==> outcome->Err_0@ == (ErrorView {
                kind: ErrorKind::ConstructionFailure,
                message: construction_prefix() + answer->Err_0@.message,
            }),
    {
        match answer {
            Ok(language) => Ok(SpellChecker { inner, language }),
            Err(cause) => Err(construction_failure(&cause)),
        }
    }

    /// Sets a checker up over a backend. The backend is asked once for
    /// the language it starts with; a backend that cannot answer is not
    /// taken into service.
    pub fn new(inner: B) -> (outcome: EjaanError<Self>)
        ensures
            outcome is Err ==> outcome->Err_0@.kind == ErrorKind::ConstructionFailure,
            exists|answer: EjaanError<Option<String>>| #[trigger]
                call_ensures(B::get_language, (&inner,), answer) && Self::is_set_up(
                    inner,
                    answer,
                    outcome,
                ),
    {
        let answer = inner.get_language();
        proof {
            assert(call_ensures(B::get_language, (&inner,), answer));
        }
        Self::with_language(inner, answer)
    }

    /// The active language, if one has been settled.
    pub fn language(&self) -> (language: Option<String>)
        ensures
            language is Some <==> self@.language is Some,
            language is Some ==> language->0@ == self@.language->0,
    {
        match &self.language {
            Some(language) => Some(language.clone()),
            None => None,
        }
    }

    /// Settles a change of language, given the backend's answer: the
    /// language is the active one from now on if the backend took it, and
    /// nothing changes if it did not or if it failed.
    pub fn settle_language(&mut self, language: String, answer: EjaanError<bool>) -> (outcome: EjaanError<
        (),
    >)
        ensures
            final(self).backend() == old(self).backend(),
            is_language_outcome(language@, answer, outcome),
            Self::is_after_language(old(self)@, language@, answer, final(self)@),
            outcome is Ok <==> answer == Ok::<bool, Error>(true),
            outcome is Ok ==> final(self)@.language == Some(language@),
            outcome is Err ==> final(self)@ == old(self)@,
            answer == Ok::<bool, Error>(false) ==> outcome->Err_0@ == (ErrorView {
                kind: ErrorKind::UnsupportedOperation,
                message: unsupported_language_prefix() + language@,
            }),
            answer is Err ==> outcome->Err_0@ == answer->Err_0@,
    {
        match language_outcome(language.as_str(), answer) {
            Ok(()) => {
                self.language = Some(language);
                Ok(())
            },
            Err(error) => Err(error),
        }
    }

    /// Makes a language the active one: the backend is handed the
    /// language, and its answer settles the change. Either the backend
    /// takes the language and it is the active language from now on, or
    /// the call fails and the active language is what it was.
    pub fn set_language(&mut self, language: String) -> (outcome: EjaanError<()>)
        ensures
            outcome is Ok ==> final(self)@.language == Some(language@),
            outcome is Err ==> final(self)@.language == old(self)@.language,
            exists|handle: &mut B, handed: &str, answer: EjaanError<bool>|
                handed@ == language@ && *handle == old(self).backend() && *final(handle) == final(self).backend() && #[trigger] call_ensures(B::set_language, (handle, handed), answer)
                    && is_language_outcome(language@, answer, outcome) && Self::is_after_language(
                    old(self)@,
                    language@,
                    answer,
                    final(self)@,
                ),
    {
        let answer = self.inner.set_language(language.as_str());
        self.settle_language(language, answer)
    }

    /// The languages that the backend can check: what the backend
    /// answers.
    pub fn available_languages(&self) -> (outcome: EjaanError<Vec<String>>)
        ensures
            call_ensures(B::get_available_languages, (&self.backend(),), outcome),
    {
        self.inner.get_available_languages()
    }

    /// Whether the word is spelled correctly under the active language:
    /// what the backend answers for the word.
    pub fn check_word(&self, word: String) -> (outcome: EjaanError<bool>)
        ensures
            exists|handed: &str|
                handed@ == word@ && #[trigger] call_ensures(
                    B::check_word,
                    (&self.backend(), handed),
                    outcome,
                ),
    {
        let handed = word.as_str();
        let outcome = self.inner.check_word(handed);
        proof {
            assert(call_ensures(B::check_word, (&self.backend(), handed), outcome));
        }
        outcome
    }

    /// The corrections that the backend offers for a word, most relevant
    /// first: what the backend answers for the word, in its order. That
    /// there are none is no failure.
    pub fn suggest(&self, word: String) -> (outcome: EjaanError<Vec<String>>)
        ensures
            exists|handed: &str|
                handed@ == word@ && #[trigger] call_ensures(
                    B::suggest,
                    (&self.backend(), handed),
                    outcome,
                ),
    {
        let handed = word.as_str();
        let outcome = self.inner.suggest(handed);
        proof {
            assert(call_ensures(B::suggest, (&self.backend(), handed), outcome));
        }
        outcome
    }

    /// The misspelled words of a text with their suggestions, in the
    /// order in which they stand: the backend's report on the text, where
    /// that report is sound. A report of the backend that does not fit the
    /// text is an error.
    pub fn check_sentences(&self, sentences: &str) -> (outcome: EjaanError<Vec<TokenWithSuggestions>>)
        ensures
            outcome is Ok ==> spans_valid(sentences@, outcome->Ok_0.deep_view()),
            exists|report: EjaanError<Vec<TokenWithSuggestions>>| #[trigger]
                call_ensures(B::check_sentences, (&self.backend(), sentences), report)
                    && is_guarded(sentences@, report, outcome),
    {
        let report = self.inner.check_sentences(sentences);
        proof {
            assert(call_ensures(B::check_sentences, (&self.backend(), sentences), report));
        }
        match report {
            Ok(spans) => guard_spans(sentences, spans),
            Err(error) => Err(error),
        }
    }

    /// The misspelled words of a text with their suggestions, as records
    /// for the host: one record for each span of the backend's report, in
    /// the same order, where that report is sound and fits what the host
    /// receives. The records are sorted by their start and never overlap.
    pub fn check_and_suggest(&self, sentences: String) -> (outcome: EjaanError<Vec<JsSuggestion>>)
        ensures
            outcome is Ok ==> records_valid(sentences@, outcome->Ok_0.deep_view()),
            exists|handed: &str, report: EjaanError<Vec<TokenWithSuggestions>>|
                handed@ == sentences@ && #[trigger] call_ensures(
                    B::check_sentences,
                    (&self.backend(), handed),
                    report,
                ) && is_recorded(sentences@, report, outcome),
    {
        let handed = sentences.as_str();
        match self.check_sentences(handed) {
            Ok(spans) => {
                let outcome = to_records(&spans);
                proof {
                    if outcome is Ok {
                        lemma_records_valid(sentences@, spans.deep_view());
                    }
                }
                outcome
            },
            Err(error) => Err(error),
        }
    }

    /// Makes the backend accept a word: what the backend answers for the
    /// word.
    pub fn add_word(&self, word: String) -> (outcome: EjaanError<()>)
        ensures
            add_answered(&self.backend(), word@, outcome),
    {
        let handed = word.as_str();
        let outcome = self.inner.add_word(handed);
        proof {
            assert(call_ensures(B::add_word, (&self.backend(), handed), outcome));
        }
        outcome
    }

    /// How long a word stays accepted that this checker was made to
    /// accept: what the backend declares.
    pub fn dictionary_scope(&self) -> (scope: DictionaryScope)
        ensures
            call_ensures(B::dictionary_scope, (&self.backend(),), scope),
    {
        self.inner.dictionary_scope()
    }

    /// Adds the words by the backend's batch: one after another, up to
    /// the first that fails. A backend that keeps no dictionary may
    /// refuse the batch as a whole.
    pub fn add_words(&self, words: Vec<String>) -> (outcome: Result<(), BatchFailure>)
        ensures
            outcome is Err ==> outcome->Err_0.is_failure_of(words.deep_view()),
            call_ensures(B::add_words, (&self.backend(), words), outcome),
            is_outcome_of_adding(&self.backend(), words.deep_view(), outcome),
    {
        let outcome = self.inner.add_words(words);
        proof {
            assert(call_ensures(B::add_words, (&self.backend(), words), outcome));
            lemma_same_answers(
                |word: Seq<char>, answer: EjaanError<()>|
                    exists|handed: &str|
                        handed@ == word && #[trigger] call_ensures(
                            B::add_word,
                            (&self.inner, handed),
                            answer,
                        ),
                |word: Seq<char>, answer: EjaanError<()>|
                    add_answered(&self.backend(), word, answer),
                call_ensures(B::dictionary_scope, (&self.inner,), DictionaryScope::Unsupported),
                words.deep_view(),
                outcome,
            );
        }
        outcome
    }

    /// Makes the backend forget a word it was taught: what the backend
    /// answers for the word.
    pub fn remove_word(&self, word: String) -> (outcome: EjaanError<()>)
        ensures
            remove_answered(&self.backend(), word@, outcome),
    {
        let handed = word.as_str();
        let outcome = self.inner.remove_word(handed);
        proof {
            assert(call_ensures(B::remove_word, (&self.backend(), handed), outcome));
        }
        outcome
    }

    /// Removes the words by the backend's batch: one after another, up
    /// to the first that fails. A backend that keeps no dictionary may
    /// refuse the batch as a whole.
    pub fn remove_words(&self, words: Vec<String>) -> (outcome: Result<(), BatchFailure>)
        ensures
            outcome is Err ==> outcome->Err_0.is_failure_of(words.deep_view()),
            call_ensures(B::remove_words, (&self.backend(), words), outcome),
            is_outcome_of_removing(&self.backend(), words.deep_view(), outcome),
    {
        let outcome = self.inner.remove_words(words);
        proof {
            assert(call_ensures(B::remove_words, (&self.backend(), words), outcome));
            lemma_same_answers(
                |word: Seq<char>, answer: EjaanError<()>|
                    exists|handed: &str|
                        handed@ == word && #[trigger] call_ensures(
                            B::remove_word,
                            (&self.inner, handed),
                            answer,
                        ),
                |word: Seq<char>, answer: EjaanError<()>|
                    remove_answered(&self.backend(), word, answer),
                call_ensures(B::dictionary_scope, (&self.inner,), DictionaryScope::Unsupported),
                words.deep_view(),
                outcome,
            );
        }
        outcome
    }
}

} // verus!
