//! The capability interface that every native engine is brought under.

use crate::utils::EjaanError;
use crate::utils::Error;
use crate::utils::ErrorKind;
use crate::utils::ErrorView;
use crate::utils::TokenWithSuggestions;
use vstd::prelude::*;

verus! {

/// The mathematical value of a [`BatchFailure`].
pub struct BatchFailureView {
    /// How many words of the batch had been applied when it stopped.
    pub applied: nat,
    /// The word on which the batch stopped, or nothing where the backend
    /// refused the batch as a whole.
    pub word: Option<Seq<char>>,
    /// What the backend reported.
    pub error: ErrorView,
}

/// Why a batch of dictionary changes stopped, and how far it had come:
/// the words before the failing one stay applied.
#[derive(Debug)]
pub struct BatchFailure {
    applied: usize,
    word: Option<String>,
    error: Error,
}

impl View for BatchFailure {
    type V = BatchFailureView;

    closed spec fn view(&self) -> BatchFailureView {
        BatchFailureView {
            applied: self.applied as nat,
            word: match self.word {
                Some(word) => Some(word@),
                None => None,
            },
            error: self.error@,
        }
    }
}

impl BatchFailure {
    /// The failure of a batch on the word with index `applied`.
    pub fn new(applied: usize, word: String, error: Error) -> (failure: Self)
        ensures
            failure@ == (BatchFailureView {
                applied: applied as nat,
                word: Some(word@),
                error: error@,
            }),
    {
        BatchFailure { applied, word: Some(word), error }
    }

    /// The refusal of a batch as a whole, by a backend that keeps no
    /// dictionary: no word was handed over, and none is named.
    pub fn refusal(error: Error) -> (failure: Self)
        ensures
            failure@ == (BatchFailureView { applied: 0, word: None, error: error@ }),
    {
        BatchFailure { applied: 0, word: None, error }
    }

    /// How many words of the batch had been applied when it stopped.
    pub fn applied(&self) -> (applied: usize)
        ensures
            applied == self@.applied,
    {
        self.applied
    }

    /// The word on which the batch stopped, or nothing where the batch
    /// was refused as a whole.
    pub fn word(&self) -> (word: Option<&str>)
        ensures
            word is Some <==> self@.word is Some,
            word is Some ==> word->0@ == self@.word->0,
    {
        match &self.word {
            Some(word) => Some(word.as_str()),
            None => None,
        }
    }

    /// What the backend reported.
    pub fn error(&self) -> (error: &Error)
        ensures
            error@ == self@.error,
    {
        &self.error
    }

    /// Whether the failure fits a batch: it names one of the words, by its
    /// place in the batch, or it refuses the batch as a whole, for want of
    /// a dictionary.
    pub open spec fn is_failure_of(self, words: Seq<Seq<char>>) -> bool {
        match self@.word {
            Some(word) => self@.applied < words.len() && word == words[self@.applied as int],
            None => self@.applied == 0 && self@.error.kind == ErrorKind::UnsupportedOperation,
        }
    }
}

/// What a batch makes of the backend's answer for its word with the given
/// index: it goes on after a success, and it stops with a failure that
/// names the word and counts the words applied before it.
pub fn settle(words: &Vec<String>, index: usize, answer: EjaanError<()>) -> (outcome: Result<
    (),
    BatchFailure,
>)
    requires
        index < words.len(),
    ensures
        outcome is Ok <==> answer is Ok,
        outcome is Err ==> outcome->Err_0@ == (BatchFailureView {
            applied: index as nat,
            word: Some(words[index as int]@),
            error: answer->Err_0@,
        }),
        outcome is Err ==> outcome->Err_0.is_failure_of(words.deep_view()),
{
    match answer {
        Ok(()) => Ok(()),
        Err(error) => Err(BatchFailure::new(index, words[index].clone(), error)),
    }
}

/// Whether the backend was asked about the word and did what it was asked.
pub open spec fn succeeded(
    answered: spec_fn(Seq<char>, EjaanError<()>) -> bool,
    word: Seq<char>,
) -> bool {
    exists|answer: EjaanError<()>| answer is Ok && #[trigger] answered(word, answer)
}

/// Whether the backend was asked about the word and failed with the error.
pub open spec fn failed(
    answered: spec_fn(Seq<char>, EjaanError<()>) -> bool,
    word: Seq<char>,
    error: ErrorView,
) -> bool {
    exists|answer: EjaanError<()>|
        answer is Err && answer->Err_0@ == error && #[trigger] answered(word, answer)
}

/// Whether `outcome` is what a batch comes to that takes the words one
/// after another, where `answered` says what the backend returned for a
/// word, and `unsupported` whether the backend declares that it keeps no
/// dictionary.
///
/// A batch that succeeds has seen the backend succeed on every word. A
/// batch that fails on a word has seen the backend succeed on every word
/// before it, and fail on it with the error that the failure carries. A
/// batch may be refused as a whole, with no word named, only by a backend
/// that keeps no dictionary.
///
/// The predicate speaks of the words up to the failing one. Whether the
/// backend was handed a word behind it is beyond what it can say.
pub open spec fn is_batch_outcome(
    answered: spec_fn(Seq<char>, EjaanError<()>) -> bool,
    unsupported: bool,
    words: Seq<Seq<char>>,
    outcome: Result<(), BatchFailure>,
) -> bool {
    match outcome {
        Ok(_) => forall|k: int| 0 <= k < words.len() ==> succeeded(answered, #[trigger] words[k]),
        Err(failure) => {
            &&& failure.is_failure_of(words)
            &&& match failure@.word {
                Some(word) => {
                    &&& forall|k: int|
                        0 <= k < failure@.applied ==> succeeded(answered, #[trigger] words[k])
                    &&& failed(answered, word, failure@.error)
                },
                None => unsupported,
            }
        },
    }
}

/// How long a word that was added stays accepted.
#[derive(Debug, Clone, Copy, PartialEq, Eq, Structural)]
pub enum DictionaryScope {
    /// The word is written to the user's dictionary and outlives the
    /// checker.
    Persistent,
    /// The word is accepted for the life of the checker only.
    Session,
    /// The backend keeps no dictionary: words can be neither added nor
    /// removed.
    Unsupported,
}

/// What every backend offers, whatever engine stands behind it.
pub trait SpellCheckerImpl {
    /// Whether the word is spelled correctly under the active language.
    fn check_word(&self, word: &str) -> EjaanError<bool>;

    /// The misspelled words of a text, each with its place in code-point
    /// offsets and its suggestions.
    fn check_sentences(&self, sentence: &str) -> EjaanError<Vec<TokenWithSuggestions>>;

    /// The corrections that the engine offers for a word, most relevant
    /// first. That there are none is no failure.
    fn suggest(&self, word: &str) -> EjaanError<Vec<String>>;

    /// Makes the engine accept a word. How long it stays accepted is
    /// what [`SpellCheckerImpl::dictionary_scope`] says.
    fn add_word(&self, word: &str) -> EjaanError<()>;

    /// How long a word stays accepted that this backend was made to
    /// accept.
    fn dictionary_scope(&self) -> DictionaryScope;

    /// Makes the engine forget a word it was taught. A word that was never
    /// taught is no failure; a backend that cannot forget fails.
    fn remove_word(&self, word: &str) -> EjaanError<()>;

    /// Adds the words one after another and stops at the first that
    /// fails. A backend that keeps no dictionary may refuse the batch as
    /// a whole.
    fn add_words(&self, words: Vec<String>) -> (outcome: Result<(), BatchFailure>)
        ensures
            outcome is Err ==> outcome->Err_0.is_failure_of(words.deep_view()),
            is_batch_outcome(
                (|word: Seq<char>, answer: EjaanError<()>|
                    exists|handed: &str|
                        handed@ == word && #[trigger] call_ensures(
                            Self::add_word,
                            (self, handed),
                            answer,
                        )),
                call_ensures(Self::dictionary_scope, (self,), DictionaryScope::Unsupported),
                words.deep_view(),
                outcome,
            ),
    {
        let ghost answered = |word: Seq<char>, answer: EjaanError<()>|
            exists|handed: &str|
                handed@ == word && #[trigger] call_ensures(Self::add_word, (self, handed), answer);
        let ghost all = words.deep_view();
        let mut i: usize = 0;
        while i < words.len()
            invariant
                i <= words.len(),
                all == words.deep_view(),
                answered == (|word: Seq<char>, answer: EjaanError<()>|
                    exists|handed: &str|
                        handed@ == word && #[trigger] call_ensures(
                            Self::add_word,
                            (self, handed),
                            answer,
                        )),
                forall|k: int| 0 <= k < i ==> succeeded(answered, #[trigger] all[k]),
            decreases words.len() - i,
        {
            let answer = self.add_word(words[i].as_str());
            proof {
                assert(all[i as int] == words[i as int]@);
                assert(answered(all[i as int], answer));
            }
            match settle(&words, i, answer) {
                Ok(()) => {},
                Err(failure) => {
                    return Err(failure);
                },
            }
            i = i + 1;
        }
        Ok(())
    }

    /// Removes the words one after another and stops at the first that
    /// fails. A backend that keeps no dictionary may refuse the batch as
    /// a whole.
    fn remove_words(&self, words: Vec<String>) -> (outcome: Result<(), BatchFailure>)
        ensures
            outcome is Err ==> outcome->Err_0.is_failure_of(words.deep_view()),
            is_batch_outcome(
                (|word: Seq<char>, answer: EjaanError<()>|
                    exists|handed: &str|
                        handed@ == word && #[trigger] call_ensures(
                            Self::remove_word,
                            (self, handed),
                            answer,
                        )),
                call_ensures(Self::dictionary_scope, (self,), DictionaryScope::Unsupported),
                words.deep_view(),
                outcome,
            ),
    {
        let ghost answered = |word: Seq<char>, answer: EjaanError<()>|
            exists|handed: &str|
                handed@ == word && #[trigger] call_ensures(Self::remove_word, (self, handed), answer);
        let ghost all = words.deep_view();
        let mut i: usize = 0;
        while i < words.len()
            invariant
                i <= words.len(),
                all == words.deep_view(),
                answered == (|word: Seq<char>, answer: EjaanError<()>|
                    exists|handed: &str|
                        handed@ == word && #[trigger] call_ensures(
                            Self::remove_word,
                            (self, handed),
                            answer,
                        )),
                forall|k: int| 0 <= k < i ==> succeeded(answered, #[trigger] all[k]),
            decreases words.len() - i,
        {
            let answer = self.remove_word(words[i].as_str());
            proof {
                assert(all[i as int] == words[i as int]@);
                assert(answered(all[i as int], answer));
            }
            match settle(&words, i, answer) {
                Ok(()) => {},
                Err(failure) => {
                    return Err(failure);
                },
            }
            i = i + 1;
        }
        Ok(())
    }

    /// The languages that the engine can check.
    fn get_available_languages(&self) -> EjaanError<Vec<String>>;

    /// The active language, if one has been settled.
    fn get_language(&self) -> EjaanError<Option<String>>;

    /// Makes a language the active one. Says whether the engine took it;
    /// a language that the engine does not know is no failure.
    fn set_language(&mut self, language: &str) -> EjaanError<bool>;
}

/// Whether `answer` is what the backend returned when it was made to
/// accept the word.
pub open spec fn add_answered<B: SpellCheckerImpl + ?Sized>(
    backend: &B,
    word: Seq<char>,
    answer: EjaanError<()>,
) -> bool {
    exists|handed: &str|
        handed@ == word && #[trigger] call_ensures(B::add_word, (backend, handed), answer)
}

/// Whether `answer` is what the backend returned when it was made to
/// forget the word.
pub open spec fn remove_answered<B: SpellCheckerImpl + ?Sized>(
    backend: &B,
    word: Seq<char>,
    answer: EjaanError<()>,
) -> bool {
    exists|handed: &str|
        handed@ == word && #[trigger] call_ensures(B::remove_word, (backend, handed), answer)
}

/// Whether `outcome` is what adding the words one after another comes to
/// on the backend.
pub open spec fn is_outcome_of_adding<B: SpellCheckerImpl + ?Sized>(
    backend: &B,
    words: Seq<Seq<char>>,
    outcome: Result<(), BatchFailure>,
) -> bool {
    is_batch_outcome(
        |word: Seq<char>, answer: EjaanError<()>| add_answered(backend, word, answer),
        call_ensures(B::dictionary_scope, (backend,), DictionaryScope::Unsupported),
        words,
        outcome,
    )
}

/// Whether `outcome` is what removing the words one after another comes
/// to on the backend.
pub open spec fn is_outcome_of_removing<B: SpellCheckerImpl + ?Sized>(
    backend: &B,
    words: Seq<Seq<char>>,
    outcome: Result<(), BatchFailure>,
) -> bool {
    is_batch_outcome(
        |word: Seq<char>, answer: EjaanError<()>| remove_answered(backend, word, answer),
        call_ensures(B::dictionary_scope, (backend,), DictionaryScope::Unsupported),
        words,
        outcome,
    )
}

/// What a batch comes to depends on the backend's answers alone: two
/// ways to say what the backend returned that agree on every word and
/// answer give the same batch outcomes.
pub proof fn lemma_same_answers(
    first: spec_fn(Seq<char>, EjaanError<()>) -> bool,
    second: spec_fn(Seq<char>, EjaanError<()>) -> bool,
    unsupported: bool,
    words: Seq<Seq<char>>,
    outcome: Result<(), BatchFailure>,
)
    requires
        forall|word: Seq<char>, answer: EjaanError<()>|
            #[trigger] first(word, answer) == second(word, answer),
        is_batch_outcome(first, unsupported, words, outcome),
    ensures
        is_batch_outcome(second, unsupported, words, outcome),
{
    assert(first =~= second);
}

} // verus!
