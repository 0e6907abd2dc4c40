//! The adapter for engines that only judge single words: the text is
//! split into tokens, the engine is asked about each token, and
//! suggestions are asked for only where the engine found the token
//! misspelled.
//!
//! The session here makes every decision; its caller only talks to the
//! engine. The session says what to ask next, and it takes the answer.

use crate::aggregator::fits_after;
use crate::aggregator::lemma_push_keeps_valid;
use crate::aggregator::misplaced_span;
use crate::aggregator::misplaced_span_message;
use crate::aggregator::next_free;
use crate::aggregator::spans_valid;
use crate::aggregator::SpanCollector;
use crate::tokenizer::in_word;
use crate::tokenizer::lemma_single_word;
use crate::tokenizer::lemma_tokenization_unique;
use crate::tokenizer::lemma_tokenization_valid;
use crate::tokenizer::tokenize;
use crate::tokenizer::tokenizes;
use crate::tokenizer::tokens_are_valid;
use crate::tokenizer::tokens_valid;
use crate::utils::Error;
use crate::utils::ErrorKind;
use crate::utils::ErrorView;
use crate::utils::FlaggedSpanView;
use crate::utils::Token;
use crate::utils::TokenView;
use crate::utils::TokenWithSuggestions;
use vstd::prelude::*;

verus! {

/// What the caller has to ask the engine next.
#[derive(Debug)]
pub enum WordRequest {
    /// Whether this word is spelled correctly.
    Check(String),
    /// The suggestions for this word, which the engine found misspelled.
    Suggest(String),
    /// Nothing: every token has been dealt with.
    Finished,
}

/// The mathematical value of a [`WordRequest`].
pub enum WordRequestView {
    /// Whether this word is spelled correctly.
    Check(Seq<char>),
    /// The suggestions for this word.
    Suggest(Seq<char>),
    /// Nothing.
    Finished,
}

impl View for WordRequest {
    type V = WordRequestView;

    open spec fn view(&self) -> WordRequestView {
        match self {
            WordRequest::Check(word) => WordRequestView::Check(word@),
            WordRequest::Suggest(word) => WordRequestView::Suggest(word@),
            WordRequest::Finished => WordRequestView::Finished,
        }
    }
}

/// The mathematical value of a [`SegmentationCheck`].
pub struct SegmentationView {
    /// The text under check.
    pub text: Seq<char>,
    /// The tokens of the text.
    pub tokens: Seq<TokenView>,
    /// How many tokens have been dealt with.
    pub position: nat,
    /// Whether the token at `position` was found misspelled and waits for
    /// its suggestions.
    pub awaiting_suggestions: bool,
    /// The spans flagged so far.
    pub flagged: Seq<FlaggedSpanView>,
}

impl SegmentationView {
    /// The state in which a check starts.
    pub open spec fn start(text: Seq<char>, tokens: Seq<TokenView>) -> SegmentationView {
        SegmentationView {
            text,
            tokens,
            position: 0,
            awaiting_suggestions: false,
            flagged: Seq::empty(),
        }
    }

    /// Whether every token has been dealt with.
    pub open spec fn finished(self) -> bool {
        self.position >= self.tokens.len()
    }

    /// Whether the session waits for a verdict on the token at `position`.
    pub open spec fn awaits_verdict(self) -> bool {
        !self.finished() && !self.awaiting_suggestions
    }

    /// Whether the session waits for the suggestions for the token at
    /// `position`.
    pub open spec fn awaits_suggestions(self) -> bool {
        !self.finished() && self.awaiting_suggestions
    }

    /// What has to be asked next.
    pub open spec fn request(self) -> WordRequestView {
        if self.finished() {
            WordRequestView::Finished
        } else if self.awaiting_suggestions {
            WordRequestView::Suggest(self.tokens[self.position as int].word)
        } else {
            WordRequestView::Check(self.tokens[self.position as int].word)
        }
    }

    /// The session after the engine's verdict on the token at `position`:
    /// a correct token is done with, a misspelled one waits for its
    /// suggestions.
    pub open spec fn after_verdict(self, correct: bool) -> SegmentationView
        recommends
            self.awaits_verdict(),
    {
        if correct {
            SegmentationView { position: self.position + 1, ..self }
        } else {
            SegmentationView { awaiting_suggestions: true, ..self }
        }
    }

    /// The session after the suggestions for the token at `position`
    /// arrived: the token is flagged with them and done with.
    pub open spec fn after_suggestions(self, suggestions: Seq<Seq<char>>) -> SegmentationView
        recommends
            self.awaits_suggestions(),
    {
        SegmentationView {
            position: self.position + 1,
            awaiting_suggestions: false,
            flagged: self.flagged.push(
                FlaggedSpanView { token: self.tokens[self.position as int], suggestions },
            ),
            ..self
        }
    }

    /// What every session keeps: its tokens are valid, its spans are a
    /// sound report on the text, and the token at `position` lies after
    /// them.
    pub open spec fn well_formed(self) -> bool {
        &&& tokens_valid(self.text, self.tokens)
        &&& spans_valid(self.text, self.flagged)
        &&& self.position <= self.tokens.len()
        &&& self.awaiting_suggestions ==> self.position < self.tokens.len()
        &&& self.position < self.tokens.len() ==> next_free(self.flagged)
            <= self.tokens[self.position as int].start
        &&& forall|k: int|
            0 <= k < self.flagged.len() ==> is_among(
                self.tokens,
                self.position as int,
                (#[trigger] self.flagged[k]).token,
            )
    }
}

/// Whether `token` is one of the first `upto` tokens.
pub open spec fn is_among(tokens: Seq<TokenView>, upto: int, token: TokenView) -> bool {
    exists|i: int| 0 <= i < upto && i < tokens.len() && #[trigger] tokens[i] == token
}

/// What is among the first tokens is among the first few more.
proof fn lemma_is_among_more(tokens: Seq<TokenView>, upto: int, more: int, token: TokenView)
    requires
        is_among(tokens, upto, token),
        upto <= more,
    ensures
        is_among(tokens, more, token),
{
    let i = choose|i: int| 0 <= i < upto && i < tokens.len() && #[trigger] tokens[i] == token;
    assert(0 <= i < more && i < tokens.len() && tokens[i] == token);
}

/// A verdict keeps a session well formed.
pub proof fn lemma_verdict_keeps_well_formed(state: SegmentationView, correct: bool)
    requires
        state.well_formed(),
        state.awaits_verdict(),
    ensures
        state.after_verdict(correct).well_formed(),
{
    let after = state.after_verdict(correct);
    if correct {
        lemma_next_token_fits(state, state.flagged);
        assert forall|k: int| 0 <= k < after.flagged.len() implies is_among(
            after.tokens,
            after.position as int,
            (#[trigger] after.flagged[k]).token,
        ) by {
            lemma_is_among_more(
                state.tokens,
                state.position as int,
                after.position as int,
                state.flagged[k].token,
            );
        }
    }
}

/// Whatever is flagged up to the token at `position`, the token after it
/// lies behind.
proof fn lemma_next_token_fits(state: SegmentationView, flagged: Seq<FlaggedSpanView>)
    requires
        state.well_formed(),
        state.position < state.tokens.len(),
        flagged.len() > 0 ==> flagged.last().token.end <= state.tokens[state.position as int].end,
    ensures
        state.position + 1 < state.tokens.len() ==> next_free(flagged) <= state.tokens[state.position as int
            + 1].start,
{
    if state.position + 1 < state.tokens.len() {
        assert(state.tokens[state.position as int].end < state.tokens[state.position as int + 1].start);
        assert(state.tokens[state.position as int].matches_text(state.text));
    }
}

/// Suggestions keep a session well formed.
pub proof fn lemma_suggestions_keep_well_formed(state: SegmentationView, suggestions: Seq<Seq<char>>)
    requires
        state.well_formed(),
        state.awaits_suggestions(),
    ensures
        state.after_suggestions(suggestions).well_formed(),
        fits_after(state.text, state.flagged, state.tokens[state.position as int]),
{
    let after = state.after_suggestions(suggestions);
    let token = state.tokens[state.position as int];
    let span = FlaggedSpanView { token, suggestions };
    lemma_push_keeps_valid(state.text, state.flagged, span);
    lemma_next_token_fits(state, after.flagged);
    assert forall|k: int| 0 <= k < after.flagged.len() implies is_among(
        after.tokens,
        after.position as int,
        (#[trigger] after.flagged[k]).token,
    ) by {
        if k < state.flagged.len() {
            lemma_is_among_more(
                state.tokens,
                state.position as int,
                after.position as int,
                state.flagged[k].token,
            );
        } else {
            assert(after.tokens[state.position as int] == after.flagged[k].token);
        }
    }
}

/// What the engine has to say about one token: whether it is spelled
/// correctly, and if not, what it suggests in its place.
pub struct WordAnswer {
    /// Whether the token is spelled correctly.
    pub correct: bool,
    /// The suggestions, which are asked for only where the token is
    /// misspelled.
    pub suggestions: Seq<Seq<char>>,
}

impl SegmentationView {
    /// The session after the engine has answered for the token at
    /// `position`.
    pub open spec fn after_answer(self, answer: WordAnswer) -> SegmentationView
        recommends
            self.awaits_verdict(),
    {
        if answer.correct {
            self.after_verdict(true)
        } else {
            self.after_verdict(false).after_suggestions(answer.suggestions)
        }
    }

    /// The session after the engine has answered for every token that was
    /// left, where `answers[k]` is its answer for the token `k`.
    pub open spec fn replay(self, answers: Seq<WordAnswer>) -> SegmentationView
        recommends
            self.tokens.len() <= answers.len(),
        decreases self.tokens.len() - self.position,
    {
        if self.position >= self.tokens.len() {
            self
        } else {
            self.after_answer(answers[self.position as int]).replay(answers)
        }
    }
}

/// The report on the first `upto` tokens: those that the engine found
/// misspelled, in their order, each with the suggestions for it.
pub open spec fn misspelled(tokens: Seq<TokenView>, answers: Seq<WordAnswer>, upto: int) -> Seq<
    FlaggedSpanView,
>
    recommends
        upto <= tokens.len() <= answers.len(),
    decreases upto,
{
    if upto <= 0 {
        Seq::empty()
    } else if answers[upto - 1].correct {
        misspelled(tokens, answers, upto - 1)
    } else {
        misspelled(tokens, answers, upto - 1).push(
            FlaggedSpanView { token: tokens[upto - 1], suggestions: answers[upto - 1].suggestions },
        )
    }
}

/// An answer keeps a session well formed and moves it one token on.
pub proof fn lemma_answer_keeps_well_formed(state: SegmentationView, answer: WordAnswer)
    requires
        state.well_formed(),
        state.awaits_verdict(),
    ensures
        state.after_answer(answer).well_formed(),
        state.after_answer(answer).position == state.position + 1,
        !state.after_answer(answer).awaiting_suggestions,
        state.after_answer(answer).tokens == state.tokens,
        state.after_answer(answer).text == state.text,
{
    lemma_verdict_keeps_well_formed(state, answer.correct);
    if !answer.correct {
        lemma_suggestions_keep_well_formed(state.after_verdict(false), answer.suggestions);
    }
}

/// A session that is carried to its end reports exactly the misspelled
/// tokens, in their order, each with the suggestions that the engine gave
/// for it; and nothing was asked about a token after it was found correct.
pub proof fn lemma_replay_reports_misspelled(state: SegmentationView, answers: Seq<WordAnswer>)
    requires
        state.well_formed(),
        !state.awaiting_suggestions,
        state.tokens.len() <= answers.len(),
        state.flagged == misspelled(state.tokens, answers, state.position as int),
    ensures
        state.replay(answers).well_formed(),
        state.replay(answers).finished(),
        state.replay(answers).text == state.text,
        state.replay(answers).tokens == state.tokens,
        state.replay(answers).flagged == misspelled(
            state.tokens,
            answers,
            state.tokens.len() as int,
        ),
    decreases state.tokens.len() - state.position,
{
    if state.position < state.tokens.len() {
        let answer = answers[state.position as int];
        lemma_answer_keeps_well_formed(state, answer);
        lemma_replay_reports_misspelled(state.after_answer(answer), answers);
    }
}

/// The report is empty exactly if the engine found every token correct.
pub proof fn lemma_report_empty_iff_all_correct(
    tokens: Seq<TokenView>,
    answers: Seq<WordAnswer>,
    upto: int,
)
    requires
        0 <= upto <= tokens.len() <= answers.len(),
    ensures
        misspelled(tokens, answers, upto).len() == 0 <==> forall|k: int|
            0 <= k < upto ==> (#[trigger] answers[k]).correct,
    decreases upto,
{
    if upto > 0 {
        lemma_report_empty_iff_all_correct(tokens, answers, upto - 1);
        if answers[upto - 1].correct {
            assert forall|k: int| 0 <= k < upto && (forall|j: int|
                0 <= j < upto - 1 ==> (#[trigger] answers[j]).correct) implies (
            #[trigger] answers[k]).correct by {}
        } else {
            assert(!answers[upto - 1].correct);
        }
    }
}

/// Checking the same text twice with an engine that answers the same
/// gives the same report: the words of a text are determined by the text,
/// and the report by the words and the answers.
pub proof fn lemma_same_answers_same_report(
    text: Seq<char>,
    first: Seq<TokenView>,
    second: Seq<TokenView>,
    answers: Seq<WordAnswer>,
)
    requires
        tokenizes(text, first),
        tokenizes(text, second),
        first.len() <= answers.len(),
    ensures
        SegmentationView::start(text, first).replay(answers).flagged == SegmentationView::start(
            text,
            second,
        ).replay(answers).flagged,
{
    lemma_tokenization_unique(text, first, second);
}

/// A freshly started session over valid tokens is well formed.
pub proof fn lemma_start_well_formed(text: Seq<char>, tokens: Seq<TokenView>)
    requires
        tokens_valid(text, tokens),
    ensures
        SegmentationView::start(text, tokens).well_formed(),
{
}

/// The single-word path and the text path agree: where the text is one
/// word, the session asks the engine about exactly that word, and its
/// report is empty exactly if the engine accepts the word.
pub proof fn lemma_word_and_text_agree(text: Seq<char>, tokens: Seq<TokenView>, answer: WordAnswer)
    requires
        tokenizes(text, tokens),
        text.len() > 0,
        forall|p: int| 0 <= p < text.len() ==> in_word(text, p),
    ensures
        tokens.len() == 1,
        SegmentationView::start(text, tokens).request() == WordRequestView::Check(text),
        SegmentationView::start(text, tokens).replay(seq![answer]).finished(),
        SegmentationView::start(text, tokens).replay(seq![answer]).flagged.len() == 0
            <==> answer.correct,
{
    lemma_single_word(text, tokens);
    let state = SegmentationView::start(text, tokens);
    let answers = seq![answer];
    lemma_tokenization_valid(text, tokens);
    lemma_start_well_formed(text, tokens);
    assert(state.flagged == misspelled(tokens, answers, 0));
    lemma_replay_reports_misspelled(state, answers);
    lemma_report_empty_iff_all_correct(tokens, answers, 1);
    assert(answers[0] == answer);
}

/// One check of one text against an engine that judges single words.
pub struct SegmentationCheck {
    collector: SpanCollector,
    tokens: Vec<Token>,
    position: usize,
    awaiting_suggestions: bool,
}

impl View for SegmentationCheck {
    type V = SegmentationView;

    closed spec fn view(&self) -> SegmentationView {
        SegmentationView {
            text: self.collector@.text,
            tokens: self.tokens.deep_view(),
            position: self.position as nat,
            awaiting_suggestions: self.awaiting_suggestions,
            flagged: self.collector@.flagged,
        }
    }
}

impl SegmentationCheck {
    /// What every session keeps.
    pub closed spec fn well_formed(&self) -> bool {
        &&& self.collector.well_formed()
        &&& self@.well_formed()
    }

    /// The tokens and spans of a session are sound at every moment.
    pub proof fn lemma_sound(&self)
        requires
            self.well_formed(),
        ensures
            self@.well_formed(),
    {
    }

    /// Starts the check of a text, split into words by the fallback
    /// tokenizer.
    pub fn new(text: &str) -> (check: Self)
        ensures
            check.well_formed(),
            tokenizes(text@, check@.tokens),
            check@ == SegmentationView::start(text@, check@.tokens),
    {
        let tokens = tokenize(text);
        proof {
            lemma_tokenization_valid(text@, tokens.deep_view());
        }
        SegmentationCheck {
            collector: SpanCollector::new(text),
            tokens,
            position: 0,
            awaiting_suggestions: false,
        }
    }

    /// Starts the check of a text that was split into tokens elsewhere,
    /// by the engine's own segmentation for one. Tokens that are not valid
    /// for the text are an error.
    pub fn with_tokens(text: &str, tokens: Vec<Token>) -> (outcome: Result<Self, Error>)
        ensures
            outcome is Ok <==> tokens_valid(text@, tokens.deep_view()),
            outcome is Ok ==> outcome->Ok_0.well_formed() && outcome->Ok_0@
                == SegmentationView::start(text@, tokens.deep_view()),
            outcome is Err ==> outcome->Err_0@ == (ErrorView {
                kind: ErrorKind::InvalidRange,
                message: misplaced_span_message(),
            }),
    {
        let collector = SpanCollector::new(text);
        if !tokens_are_valid(collector.text(), &tokens) {
            return Err(misplaced_span());
        }
        Ok(SegmentationCheck { collector, tokens, position: 0, awaiting_suggestions: false })
    }

    /// What the caller has to ask the engine next.
    pub fn request(&self) -> (request: WordRequest)
        requires
            self.well_formed(),
        ensures
            request@ == self@.request(),
    {
        if self.position >= self.tokens.len() {
            WordRequest::Finished
        } else if self.awaiting_suggestions {
            WordRequest::Suggest(String::from_str(self.tokens[self.position].word()))
        } else {
            WordRequest::Check(String::from_str(self.tokens[self.position].word()))
        }
    }

    /// Whether every token has been dealt with.
    pub fn is_finished(&self) -> (finished: bool)
        ensures
            finished == self@.finished(),
    {
        self.position >= self.tokens.len()
    }

    /// Takes the engine's verdict on the word that was asked about. Says
    /// whether a verdict was awaited; if not, nothing changes.
    pub fn verdict(&mut self, correct: bool) -> (taken: bool)
        requires
            old(self).well_formed(),
        ensures
            final(self).well_formed(),
            taken == old(self)@.awaits_verdict(),
            taken ==> final(self)@ == old(self)@.after_verdict(correct),
            !taken ==> final(self)@ == old(self)@,
    {
        if self.position >= self.tokens.len() || self.awaiting_suggestions {
            return false;
        }
        proof {
            lemma_verdict_keeps_well_formed(self@, correct);
        }
        if correct {
            self.position = self.position + 1;
        } else {
            self.awaiting_suggestions = true;
        }
        true
    }

    /// Takes the suggestions for the word that was found misspelled, in
    /// the engine's order, and flags the token with them. Says whether
    /// suggestions were awaited; if not, nothing changes.
    pub fn suggestions(&mut self, suggestions: Vec<String>) -> (taken: bool)
        requires
            old(self).well_formed(),
        ensures
            final(self).well_formed(),
            taken == old(self)@.awaits_suggestions(),
            taken ==> final(self)@ == old(self)@.after_suggestions(suggestions.deep_view()),
            !taken ==> final(self)@ == old(self)@,
    {
        if self.position >= self.tokens.len() || !self.awaiting_suggestions {
            return false;
        }
        proof {
            lemma_suggestions_keep_well_formed(self@, suggestions.deep_view());
        }
        let token = self.tokens[self.position].clone();
        let outcome = self.collector.accept(token, suggestions);
        assert(outcome is Ok);
        self.position = self.position + 1;
        self.awaiting_suggestions = false;
        true
    }

    /// Ends the check and hands out the flagged spans, in the order of
    /// the tokens.
    pub fn into_spans(self) -> (spans: Vec<TokenWithSuggestions>)
        requires
            self.well_formed(),
        ensures
            spans.deep_view() == self@.flagged,
            spans_valid(self@.text, spans.deep_view()),
    {
        self.collector.into_spans()
    }
}

} // verus!
