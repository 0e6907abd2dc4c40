//! Merging tokens with their suggestions, and the rules that a list of
//! flagged spans keeps: ascending order, no overlap, and every span at the
//! place in the text where its word stands.

use crate::offsets::chars_of;
use crate::utils::decimal;
use crate::utils::decimal_digits;
use crate::offsets::IndexedText;
use crate::utils::Error;
use crate::utils::ErrorKind;
use crate::utils::ErrorView;
use crate::utils::FlaggedSpanView;
use crate::utils::Token;
use crate::utils::TokenView;
use crate::utils::TokenWithSuggestions;
use vstd::prelude::*;

verus! {

/// Whether the spans are sorted by their start and never overlap.
pub open spec fn spans_ascending(spans: Seq<FlaggedSpanView>) -> bool {
    forall|j: int, k: int|
        0 <= j < k < spans.len() ==> (#[trigger] spans[j]).token.end < (
        #[trigger] spans[k]).token.start
}

/// Whether every span lies in the text and holds the word found there.
pub open spec fn spans_in_text(text: Seq<char>, spans: Seq<FlaggedSpanView>) -> bool {
    forall|k: int| 0 <= k < spans.len() ==> (#[trigger] spans[k]).token.matches_text(text)
}

/// Whether the spans are a sound report on the text.
pub open spec fn spans_valid(text: Seq<char>, spans: Seq<FlaggedSpanView>) -> bool {
    spans_ascending(spans) && spans_in_text(text, spans)
}

/// The first code-point offset at which a further span may start: the one
/// after the last span, or zero.
pub open spec fn next_free(spans: Seq<FlaggedSpanView>) -> nat {
    if spans.len() == 0 {
        0
    } else {
        spans.last().token.end + 1
    }
}

/// Whether a token may be added to the spans of a text: it holds the word
/// found at its place, and that place lies after all spans so far.
pub open spec fn fits_after(text: Seq<char>, spans: Seq<FlaggedSpanView>, token: TokenView) -> bool {
    token.matches_text(text) && next_free(spans) <= token.start
}

/// A sound list of spans stays sound when a fitting token is added to it.
pub proof fn lemma_push_keeps_valid(
    text: Seq<char>,
    spans: Seq<FlaggedSpanView>,
    span: FlaggedSpanView,
)
    requires
        spans_valid(text, spans),
        fits_after(text, spans, span.token),
    ensures
        spans_valid(text, spans.push(span)),
        next_free(spans.push(span)) == span.token.end + 1,
{
    let after = spans.push(span);
    assert forall|j: int, k: int| 0 <= j < k < after.len() implies (#[trigger] after[j]).token.end
        < (#[trigger] after[k]).token.start by {
        if k == spans.len() {
            if j < spans.len() - 1 {
                assert(spans[j].token.end < spans[spans.len() - 1].token.start);
            }
            assert(spans[spans.len() - 1].token.matches_text(text));
        }
    }
}

/// Spans that are sound are strictly ordered by their start as well as by
/// their end, and all of them end before the text does.
pub proof fn lemma_valid_spans_ordered(text: Seq<char>, spans: Seq<FlaggedSpanView>)
    requires
        spans_valid(text, spans),
    ensures
        forall|j: int, k: int|
            0 <= j < k < spans.len() ==> (#[trigger] spans[j]).token.start < (
            #[trigger] spans[k]).token.start,
        forall|j: int, k: int|
            0 <= j < k < spans.len() ==> (#[trigger] spans[j]).token.end < (
            #[trigger] spans[k]).token.end,
        forall|k: int| 0 <= k < spans.len() ==> (#[trigger] spans[k]).token.well_formed(),
        next_free(spans) <= text.len(),
{
    assert forall|j: int, k: int| 0 <= j < k < spans.len() implies (#[trigger] spans[j]).token.start
        < (#[trigger] spans[k]).token.start by {
        assert(spans[j].token.matches_text(text));
    }
    assert forall|j: int, k: int| 0 <= j < k < spans.len() implies (#[trigger] spans[j]).token.end
        < (#[trigger] spans[k]).token.end by {
        assert(spans[k].token.matches_text(text));
    }
    assert forall|k: int| 0 <= k < spans.len() implies (#[trigger] spans[k]).token.well_formed() by {
        assert(spans[k].token.matches_text(text));
    }
    if spans.len() > 0 {
        assert(spans[spans.len() - 1].token.matches_text(text));
    }
}

/// Pairs a misspelled token with its suggestions, in the order given.
pub fn aggregate(token: Token, suggestions: Vec<String>) -> (span: TokenWithSuggestions)
    ensures
        span@ == (FlaggedSpanView { token: token@, suggestions: suggestions.deep_view() }),
{
    TokenWithSuggestions::new(token, suggestions)
}

/// Whether a token lies in the text and holds the word found at its place.
pub fn token_matches(text: &IndexedText, token: &Token) -> (matches: bool)
    ensures
        matches == token@.matches_text(text@),
{
    let chars = text.chars();
    let start: usize = token.start();
    let end: usize = token.end();
    if start > end || end >= chars.len() {
        return false;
    }
    let word = chars_of(token.word());
    if word.len() != end - start + 1 {
        return false;
    }
    let mut i: usize = 0;
    while i < word.len()
        invariant
            chars@ == text@,
            word@ == token@.word,
            start == token@.start,
            end == token@.end,
            start <= end < chars.len(),
            word.len() == end - start + 1,
            i <= word.len(),
            forall|k: int| 0 <= k < i ==> word[k] == chars[start + k],
        decreases word.len() - i,
    {
        if word[i] != chars[start + i] {
            proof {
                assert(text@.subrange(start as int, end + 1)[i as int] == chars[start + i]);
            }
            return false;
        }
        i = i + 1;
    }
    proof {
        assert(word@ =~= text@.subrange(start as int, end + 1));
    }
    true
}

/// Whether the spans are a sound report on the text.
pub fn spans_are_valid(text: &IndexedText, spans: &Vec<TokenWithSuggestions>) -> (valid: bool)
    ensures
        valid == spans_valid(text@, spans.deep_view()),
{
    let ghost all = spans.deep_view();
    let count: usize = text.len();
    let mut floor: usize = 0;
    let mut i: usize = 0;
    while i < spans.len()
        invariant
            all == spans.deep_view(),
            count == text@.len(),
            i <= spans.len(),
            spans_valid(text@, all.take(i as int)),
            floor == next_free(all.take(i as int)),
        decreases spans.len() - i,
    {
        let token = spans[i].token();
        let ghost seen = all.take(i as int);
        proof {
            assert(all[i as int] == spans[i as int]@);
            assert(all.take(i + 1) =~= seen.push(all[i as int]));
        }
        if !token_matches(text, token) {
            return false;
        }
        if token.start() < floor {
            proof {
                assert(seen.last() == all[i - 1]);
            }
            return false;
        }
        proof {
            lemma_push_keeps_valid(text@, seen, all[i as int]);
        }
        floor = token.end() + 1;
        i = i + 1;
    }
    proof {
        assert(all.take(spans.len() as int) =~= all);
    }
    true
}

/// The text of the error for a span that does not fit.
pub open spec fn misplaced_span_message() -> Seq<char> {
    "span does not fit the text or the spans before it"@
}

/// The error for a span that does not fit.
pub fn misplaced_span() -> (error: Error)
    ensures
        error@ == (ErrorView { kind: ErrorKind::InvalidRange, message: misplaced_span_message() }),
{
    Error::with_kind(
        ErrorKind::InvalidRange,
        String::from_str("span does not fit the text or the spans before it"),
    )
}

/// The text put in front of the range by [`misplaced_range`].
pub open spec fn misplaced_range_prefix() -> Seq<char> {
    "range does not fit the text or the spans before it: "@
}

/// The text of the error for a range of code units that does not fit:
/// it names the range by its start and its end, as in `10..14`.
pub open spec fn misplaced_range_message(start_unit: nat, length_units: nat) -> Seq<char> {
    misplaced_range_prefix() + decimal_digits(start_unit) + seq!['.', '.'] + decimal_digits(
        start_unit + length_units,
    )
}

/// The error for a range of code units that does not fit.
pub open spec fn misplaced_range_error(start_unit: nat, length_units: nat) -> ErrorView {
    ErrorView {
        kind: ErrorKind::InvalidRange,
        message: misplaced_range_message(start_unit, length_units),
    }
}

/// The error for a range of code units that does not fit.
pub fn misplaced_range(start_unit: usize, length_units: usize) -> (error: Error)
    ensures
        error@ == misplaced_range_error(start_unit as nat, length_units as nat),
{
    proof {
        reveal_strlit("..");
    }
    let mut message = String::from_str("range does not fit the text or the spans before it: ");
    message.append(decimal(start_unit as u128).as_str());
    message.append("..");
    message.append(decimal(start_unit as u128 + length_units as u128).as_str());
    assert(message@ =~= misplaced_range_message(start_unit as nat, length_units as nat));
    Error::with_kind(ErrorKind::InvalidRange, message)
}

/// The mathematical value of a [`SpanCollector`].
pub struct CollectorView {
    /// The text under check.
    pub text: Seq<char>,
    /// The spans flagged so far.
    pub flagged: Seq<FlaggedSpanView>,
}

/// The flagged spans of one text, gathered in ascending order. It takes a
/// span only where the span fits, so that what it holds is sound at every
/// moment.
pub struct SpanCollector {
    text: IndexedText,
    flagged: Vec<TokenWithSuggestions>,
    floor: usize,
}

impl View for SpanCollector {
    type V = CollectorView;

    closed spec fn view(&self) -> CollectorView {
        CollectorView { text: self.text@, flagged: self.flagged.deep_view() }
    }
}

impl SpanCollector {
    /// What every collector keeps: its spans are a sound report on its
    /// text.
    pub closed spec fn well_formed(&self) -> bool {
        &&& spans_valid(self.text@, self.flagged.deep_view())
        &&& self.floor == next_free(self.flagged.deep_view())
    }

    /// The spans of a collector are a sound report on its text.
    pub proof fn lemma_sound(&self)
        requires
            self.well_formed(),
        ensures
            spans_valid(self@.text, self@.flagged),
    {
    }

    /// A collector for the text, with no span yet.
    pub fn new(text: &str) -> (collector: Self)
        ensures
            collector.well_formed(),
            collector@ == (CollectorView { text: text@, flagged: Seq::empty() }),
    {
        let collector = SpanCollector { text: IndexedText::new(text), flagged: Vec::new(), floor: 0 };
        assert(collector.flagged.deep_view() =~= Seq::empty());
        collector
    }

    /// The text under check.
    pub fn text(&self) -> (text: &IndexedText)
        ensures
            text@ == self@.text,
    {
        &self.text
    }

    /// The first code-point offset at which a further span may start.
    pub fn floor(&self) -> (floor: usize)
        requires
            self.well_formed(),
        ensures
            floor == next_free(self@.flagged),
    {
        self.floor
    }

    /// Whether nothing has been flagged.
    pub fn is_clean(&self) -> (clean: bool)
        ensures
            clean == (self@.flagged.len() == 0),
    {
        self.flagged.len() == 0
    }

    /// Whether the token could be flagged next.
    pub fn accepts(&self, token: &Token) -> (fits: bool)
        requires
            self.well_formed(),
        ensures
            fits == fits_after(self@.text, self@.flagged, token@),
    {
        token_matches(&self.text, token) && token.start() >= self.floor
    }

    /// Flags the token with its suggestions if it fits, and changes
    /// nothing if it does not.
    pub fn accept(&mut self, token: Token, suggestions: Vec<String>) -> (outcome: Result<(), Error>)
        requires
            old(self).well_formed(),
        ensures
            final(self).well_formed(),
            final(self)@.text == old(self)@.text,
            fits_after(old(self)@.text, old(self)@.flagged, token@) ==> {
                &&& outcome is Ok
                &&& final(self)@.flagged == old(self)@.flagged.push(
                    FlaggedSpanView { token: token@, suggestions: suggestions.deep_view() },
                )
            },
            !fits_after(old(self)@.text, old(self)@.flagged, token@) ==> {
                &&& outcome is Err
                &&& outcome->Err_0@ == (ErrorView {
                    kind: ErrorKind::InvalidRange,
                    message: misplaced_span_message(),
                })
                &&& final(self)@ == old(self)@
            },
    {
        if !self.accepts(&token) {
            return Err(misplaced_span());
        }
        let ghost before = self.flagged.deep_view();
        let count: usize = self.text.len();
        let past: usize = token.end() + 1;
        let span = aggregate(token, suggestions);
        proof {
            lemma_push_keeps_valid(self.text@, before, span@);
        }
        self.flagged.push(span);
        self.floor = past;
        proof {
            assert(self.flagged.deep_view() =~= before.push(span@));
        }
        Ok(())
    }

    /// Hands out the spans gathered.
    pub fn into_spans(self) -> (spans: Vec<TokenWithSuggestions>)
        requires
            self.well_formed(),
        ensures
            spans.deep_view() == self@.flagged,
            spans_valid(self@.text, spans.deep_view()),
    {
        self.flagged
    }
}

} // verus!
