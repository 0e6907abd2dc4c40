//! The backend for platforms without a native engine: every operation
//! fails and says so, a batch of no words too.

use crate::backend::BatchFailure;
use crate::backend::BatchFailureView;
use crate::backend::DictionaryScope;
use crate::backend::SpellCheckerImpl;
use crate::utils::EjaanError;
use crate::utils::Error;
use crate::utils::ErrorKind;
use crate::utils::ErrorView;
use crate::utils::TokenWithSuggestions;
use vstd::prelude::*;

verus! {

/// A backend that offers nothing.
#[derive(Debug)]
pub struct StubSpellChecker {
    platform: String,
}

impl View for StubSpellChecker {
    type V = Seq<char>;

    closed spec fn view(&self) -> Seq<char> {
        self.platform@
    }
}

impl StubSpellChecker {
    /// Creates the stub for the platform of the given name.
    pub fn new(platform: String) -> (stub: Self)
        ensures
            stub@ == platform@,
    {
        StubSpellChecker { platform }
    }

    /// The error that every operation of the stub returns.
    pub open spec fn refusal(&self) -> ErrorView {
        ErrorView {
            kind: ErrorKind::UnsupportedOperation,
            message: Error::unimplemented_prefix() + self@,
        }
    }

    /// The error that every operation of the stub returns.
    pub fn refuse(&self) -> (error: Error)
        ensures
            error@ == self.refusal(),
    {
        Error::unimplemented(self.platform.as_str())
    }
}

impl SpellCheckerImpl for StubSpellChecker {
    fn check_word(&self, word: &str) -> (outcome: EjaanError<bool>)
        ensures
            outcome is Err && outcome->Err_0@ == self.refusal(),
    {
        Err(self.refuse())
    }

    fn check_sentences(&self, sentence: &str) -> (outcome: EjaanError<Vec<TokenWithSuggestions>>)
        ensures
            outcome is Err && outcome->Err_0@ == self.refusal(),
    {
        Err(self.refuse())
    }

    fn suggest(&self, word: &str) -> (outcome: EjaanError<Vec<String>>)
        ensures
            outcome is Err && outcome->Err_0@ == self.refusal(),
    {
        Err(self.refuse())
    }

    fn add_word(&self, word: &str) -> (outcome: EjaanError<()>)
        ensures
            outcome is Err && outcome->Err_0@ == self.refusal(),
    {
        Err(self.refuse())
    }

    fn dictionary_scope(&self) -> (scope: DictionaryScope)
        ensures
            scope == DictionaryScope::Unsupported,
    {
        DictionaryScope::Unsupported
    }

    fn add_words(&self, words: Vec<String>) -> (outcome: Result<(), BatchFailure>)
        ensures
            outcome is Err && outcome->Err_0@ == (BatchFailureView {
                applied: 0,
                word: None,
                error: self.refusal(),
            }),
    {
        let scope = self.dictionary_scope();
        let failure = BatchFailure::refusal(self.refuse());
        proof {
            assert(scope == DictionaryScope::Unsupported);
            assert(failure.is_failure_of(words.deep_view()));
        }
        Err(failure)
    }

    fn remove_words(&self, words: Vec<String>) -> (outcome: Result<(), BatchFailure>)
        ensures
            outcome is Err && outcome->Err_0@ == (BatchFailureView {
                applied: 0,
                word: None,
                error: self.refusal(),
            }),
    {
        let scope = self.dictionary_scope();
        let failure = BatchFailure::refusal(self.refuse());
        proof {
            assert(scope == DictionaryScope::Unsupported);
            assert(failure.is_failure_of(words.deep_view()));
        }
        Err(failure)
    }

    fn remove_word(&self, word: &str) -> (outcome: EjaanError<()>)
        ensures
            outcome is Err && outcome->Err_0@ == self.refusal(),
    {
        Err(self.refuse())
    }

    fn get_available_languages(&self) -> (outcome: EjaanError<Vec<String>>)
        ensures
            outcome is Err && outcome->Err_0@ == self.refusal(),
    {
        Err(self.refuse())
    }

    fn get_language(&self) -> (outcome: EjaanError<Option<String>>)
        ensures
            outcome is Err && outcome->Err_0@ == self.refusal(),
    {
        Err(self.refuse())
    }

    fn set_language(&mut self, language: &str) -> (outcome: EjaanError<bool>)
        ensures
            outcome is Err && outcome->Err_0@ == old(self).refusal(),
            final(self)@ == old(self)@,
    {
        Err(self.refuse())
    }
}

} // verus!
