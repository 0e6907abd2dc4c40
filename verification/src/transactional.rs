//! The adapter for engines that check a whole text at once and answer
//! with correction records: a range in UTF-16 code units, a corrective
//! action, and on demand a replacement or a list of suggestions.
//!
//! The session here makes every decision; its caller only talks to the
//! engine. For each record the session says what has to be fetched, and it
//! takes what was fetched.

use crate::aggregator::fits_after;
use crate::aggregator::lemma_push_keeps_valid;
use crate::aggregator::misplaced_range;
use crate::aggregator::misplaced_range_error;
use crate::aggregator::spans_valid;
use crate::aggregator::SpanCollector;
use crate::offsets::covers_whole_chars;
use crate::offsets::token_at_units;
use crate::utils::Error;
use crate::utils::ErrorKind;
use crate::utils::ErrorView;
use crate::utils::FlaggedSpanView;
use crate::utils::Token;
use crate::utils::TokenView;
use crate::utils::TokenWithSuggestions;
use vstd::prelude::*;

verus! {

/// How the engine wants a detected error to be handled.
#[derive(Debug, Clone, Copy, PartialEq, Eq, Structural)]
pub enum CorrectiveAction {
    /// Nothing is to be done: the word is accepted.
    NoAction,
    /// Suggestions for the word are to be fetched.
    GetSuggestions,
    /// The word is to be replaced by the replacement that the engine names.
    Replace,
    /// The word is to be deleted.
    Delete,
    /// An action that this crate does not know.
    Unknown,
}

impl CorrectiveAction {
    /// The action that an engine's numeric code stands for.
    pub open spec fn of_code(code: i32) -> CorrectiveAction {
        if code == 0 {
            CorrectiveAction::NoAction
        } else if code == 1 {
            CorrectiveAction::GetSuggestions
        } else if code == 2 {
            CorrectiveAction::Replace
        } else if code == 3 {
            CorrectiveAction::Delete
        } else {
            CorrectiveAction::Unknown
        }
    }

    /// The action that an engine's numeric code stands for.
    pub fn from_code(code: i32) -> (action: Self)
        ensures
            action == Self::of_code(code),
    {
        match code {
            0 => CorrectiveAction::NoAction,
            1 => CorrectiveAction::GetSuggestions,
            2 => CorrectiveAction::Replace,
            3 => CorrectiveAction::Delete,
            _ => CorrectiveAction::Unknown,
        }
    }

    /// Whether a record with this action leads to a flagged span.
    pub open spec fn flags(self) -> bool {
        self == CorrectiveAction::GetSuggestions || self == CorrectiveAction::Replace
    }
}

/// What the caller has to fetch from the engine after a record.
#[derive(Debug)]
pub enum Fetch {
    /// Nothing: the record is done with.
    Nothing,
    /// The suggestions for this word.
    Suggestions(String),
    /// The replacement that belongs to the record.
    Replacement,
}

/// A span that waits for what the engine has to say about it.
pub struct PendingView {
    /// The token of the span.
    pub token: TokenView,
    /// Whether a replacement is awaited, and not suggestions.
    pub replace: bool,
}

/// The mathematical value of a [`TransactionalCheck`].
pub struct TransactionalView {
    /// The text under check.
    pub text: Seq<char>,
    /// The spans flagged so far.
    pub flagged: Seq<FlaggedSpanView>,
    /// The span that waits for its suggestions or its replacement.
    pub pending: Option<PendingView>,
}

/// What a session makes of a correction record.
pub enum RecordClass {
    /// A span still waits for its fetch: the record is refused.
    Busy,
    /// The range is empty: the record is passed over.
    Empty,
    /// The range does not cover whole characters of the text, or lies
    /// before the end of the last span: the record is an error that
    /// names the range.
    Misplaced,
    /// The action flags nothing: the record is passed over.
    Ignored,
    /// The span is held back until its suggestions or its replacement
    /// arrive.
    Held,
}

impl TransactionalView {
    /// The token that a record speaks of.
    pub open spec fn token_of(self, start_unit: int, length_units: int) -> TokenView {
        token_at_units(self.text, start_unit, length_units)
    }

    /// What the session makes of a record.
    pub open spec fn classify(self, start_unit: int, length_units: int, action: CorrectiveAction) -> RecordClass {
        if self.pending is Some {
            RecordClass::Busy
        } else if length_units == 0 {
            RecordClass::Empty
        } else if !covers_whole_chars(self.text, start_unit, length_units) {
            RecordClass::Misplaced
        } else if !action.flags() {
            RecordClass::Ignored
        } else if !fits_after(self.text, self.flagged, self.token_of(start_unit, length_units)) {
            RecordClass::Misplaced
        } else {
            RecordClass::Held
        }
    }

    /// The session after a record.
    pub open spec fn after_record(self, start_unit: int, length_units: int, action: CorrectiveAction) -> TransactionalView {
        if self.classify(start_unit, length_units, action) is Held {
            TransactionalView {
                pending: Some(
                    PendingView {
                        token: self.token_of(start_unit, length_units),
                        replace: action == CorrectiveAction::Replace,
                    },
                ),
                ..self
            }
        } else {
            self
        }
    }

    /// The session after the awaited items arrived: the span that waited
    /// is flagged with them.
    pub open spec fn after_fetch(self, suggestions: Seq<Seq<char>>) -> TransactionalView
        recommends
            self.pending is Some,
    {
        TransactionalView {
            flagged: self.flagged.push(
                FlaggedSpanView { token: self.pending->0.token, suggestions },
            ),
            pending: None,
            ..self
        }
    }

    /// What every session keeps: its spans are a sound report on its text,
    /// and the span that waits fits after them.
    pub open spec fn well_formed(self) -> bool {
        &&& spans_valid(self.text, self.flagged)
        &&& self.pending is Some ==> fits_after(self.text, self.flagged, self.pending->0.token)
    }
}

/// A correction record together with what was fetched for it: the
/// suggestions, or the replacement as the only item.
pub struct ResolvedRecord {
    /// Where the range starts, in UTF-16 code units.
    pub start_unit: int,
    /// How many code units the range takes.
    pub length_units: int,
    /// How the engine wants the error to be handled.
    pub action: CorrectiveAction,
    /// What was fetched for the record.
    pub items: Seq<Seq<char>>,
}

impl TransactionalView {
    /// The state in which a check starts.
    pub open spec fn start(text: Seq<char>) -> TransactionalView {
        TransactionalView { text, flagged: Seq::empty(), pending: None }
    }

    /// Whether the text, taken as one word, is spelled correctly as far
    /// as the records went: the report on it is empty.
    pub open spec fn word_accepted(self) -> bool {
        self.flagged.len() == 0
    }

    /// The session after a record and the fetch that belongs to it, or
    /// nothing if the record is refused.
    pub open spec fn after_resolved(self, record: ResolvedRecord) -> Option<TransactionalView> {
        match self.classify(record.start_unit, record.length_units, record.action) {
            RecordClass::Held => Some(
                self.after_record(record.start_unit, record.length_units, record.action).after_fetch(
                    record.items,
                ),
            ),
            RecordClass::Empty => Some(self),
            RecordClass::Ignored => Some(self),
            RecordClass::Misplaced => None,
            RecordClass::Busy => None,
        }
    }

    /// The session after all the records in their order, or nothing if
    /// one of them is refused.
    pub open spec fn replay(self, records: Seq<ResolvedRecord>) -> Option<TransactionalView>
        decreases records.len(),
    {
        if records.len() == 0 {
            Some(self)
        } else {
            match self.replay(records.drop_last()) {
                None => None,
                Some(before) => before.after_resolved(records.last()),
            }
        }
    }
}

/// A record keeps a session well formed.
pub proof fn lemma_record_keeps_well_formed(
    state: TransactionalView,
    start_unit: int,
    length_units: int,
    action: CorrectiveAction,
)
    requires
        state.well_formed(),
    ensures
        state.after_record(start_unit, length_units, action).well_formed(),
{
}

/// Flagging the span that waited keeps a session well formed, and leaves
/// nothing waiting.
pub proof fn lemma_fetch_keeps_well_formed(state: TransactionalView, items: Seq<Seq<char>>)
    requires
        state.well_formed(),
        state.pending is Some,
    ensures
        state.after_fetch(items).well_formed(),
        state.after_fetch(items).pending is None,
{
    lemma_push_keeps_valid(
        state.text,
        state.flagged,
        FlaggedSpanView { token: state.pending->0.token, suggestions: items },
    );
}

/// However many records a session takes, its report stays sorted by
/// start, free of overlap, and true to the text.
pub proof fn lemma_replay_keeps_well_formed(state: TransactionalView, records: Seq<ResolvedRecord>)
    requires
        state.well_formed(),
        state.pending is None,
        state.replay(records) is Some,
    ensures
        state.replay(records)->0.well_formed(),
        state.replay(records)->0.pending is None,
        state.replay(records)->0.text == state.text,
        spans_valid(state.text, state.replay(records)->0.flagged),
    decreases records.len(),
{
    if records.len() > 0 {
        let before = state.replay(records.drop_last())->0;
        lemma_replay_keeps_well_formed(state, records.drop_last());
        let record = records.last();
        if before.classify(record.start_unit, record.length_units, record.action) is Held {
            let held = before.after_record(record.start_unit, record.length_units, record.action);
            lemma_record_keeps_well_formed(
                before,
                record.start_unit,
                record.length_units,
                record.action,
            );
            lemma_fetch_keeps_well_formed(held, record.items);
        }
    }
}

impl ResolvedRecord {
    /// Whether the record can flag a span: its range is not empty and its
    /// action is to replace or to get suggestions.
    pub open spec fn is_flagging(self) -> bool {
        self.length_units != 0 && self.action.flags()
    }
}

/// The single-word path and the text path agree: a word is accepted
/// exactly if the report on it, taken as a text, is empty, and that is so
/// exactly if the engine gave no record that flags.
pub proof fn lemma_word_and_text_agree(text: Seq<char>, records: Seq<ResolvedRecord>)
    requires
        TransactionalView::start(text).replay(records) is Some,
    ensures
        TransactionalView::start(text).replay(records)->0.word_accepted()
            <==> TransactionalView::start(text).replay(records)->0.flagged.len() == 0,
        TransactionalView::start(text).replay(records)->0.flagged.len() == 0 <==> forall|k: int|
            0 <= k < records.len() ==> !(#[trigger] records[k]).is_flagging(),
    decreases records.len(),
{
    let start = TransactionalView::start(text);
    if records.len() > 0 {
        let earlier = records.drop_last();
        let last = records.last();
        let before = start.replay(earlier)->0;
        lemma_replay_keeps_well_formed(start, earlier);
        lemma_word_and_text_agree(text, earlier);
        if last.is_flagging() {
            assert(before.classify(last.start_unit, last.length_units, last.action) is Held);
            assert(records[records.len() - 1].is_flagging());
        } else {
            assert(start.replay(records) == Some(before));
            assert forall|k: int| 0 <= k < earlier.len() implies earlier[k] == records[k] by {}
            if forall|k: int| 0 <= k < earlier.len() ==> !(#[trigger] earlier[k]).is_flagging() {
                assert forall|k: int| 0 <= k < records.len() implies !(
                #[trigger] records[k]).is_flagging() by {
                    if k < earlier.len() {
                        assert(earlier[k] == records[k]);
                    }
                }
            } else {
                let k = choose|k: int| 0 <= k < earlier.len() && (#[trigger] earlier[k]).is_flagging();
                assert(records[k].is_flagging());
            }
        }
    }
}

/// A record whose range is empty, or whose action is to delete, to do
/// nothing, or unknown, never adds to the report.
pub proof fn lemma_unflagging_record(state: TransactionalView, record: ResolvedRecord)
    requires
        state.pending is None,
        record.length_units == 0 || !record.action.flags(),
        state.after_resolved(record) is Some,
    ensures
        state.after_resolved(record) == Some(state),
{
}

/// A record to replace flags its span with the replacement as the one
/// suggestion; a record that asks for suggestions flags its span with
/// them, in their order.
pub proof fn lemma_flagging_record(state: TransactionalView, record: ResolvedRecord)
    requires
        state.pending is None,
        state.classify(record.start_unit, record.length_units, record.action) is Held,
    ensures
        record.action.flags(),
        state.after_resolved(record) is Some,
        state.after_resolved(record)->0.flagged == state.flagged.push(
            FlaggedSpanView {
                token: token_at_units(state.text, record.start_unit, record.length_units),
                suggestions: record.items,
            },
        ),
{
}

/// The text of the error for a record that arrives while a span waits.
pub open spec fn busy_message() -> Seq<char> {
    "a span still waits for its suggestions"@
}

/// One check of one text against a transactional engine.
pub struct TransactionalCheck {
    collector: SpanCollector,
    pending: Option<Token>,
    replace: bool,
}

impl View for TransactionalCheck {
    type V = TransactionalView;

    closed spec fn view(&self) -> TransactionalView {
        TransactionalView {
            text: self.collector@.text,
            flagged: self.collector@.flagged,
            pending: match self.pending {
                Some(token) => Some(PendingView { token: token@, replace: self.replace }),
                None => None,
            },
        }
    }
}

impl TransactionalCheck {
    /// What every session keeps.
    pub closed spec fn well_formed(&self) -> bool {
        &&& self.collector.well_formed()
        &&& self@.well_formed()
    }

    /// The spans of a session are a sound report on its text at every
    /// moment.
    pub proof fn lemma_sound(&self)
        requires
            self.well_formed(),
        ensures
            self@.well_formed(),
    {
    }

    /// Starts the check of a text.
    pub fn new(text: &str) -> (check: Self)
        ensures
            check.well_formed(),
            check@ == TransactionalView::start(text@),
    {
        TransactionalCheck { collector: SpanCollector::new(text), pending: None, replace: false }
    }

    /// Takes the next correction record of the engine, with its range in
    /// UTF-16 code units, and says what the caller has to fetch for it.
    ///
    /// An empty range is passed over, and so is a record whose action
    /// flags nothing. A range that does not cover whole characters of the
    /// text, or that lies before the end of the last span, is an error
    /// that names the range.
    pub fn record(&mut self, start_unit: usize, length_units: usize, action: CorrectiveAction) -> (outcome:
        Result<Fetch, Error>)
        requires
            old(self).well_formed(),
        ensures
            final(self).well_formed(),
            final(self)@ == old(self)@.after_record(
                start_unit as int,
                length_units as int,
                action,
            ),
            match old(self)@.classify(start_unit as int, length_units as int, action) {
                RecordClass::Busy => outcome is Err && outcome->Err_0@ == (ErrorView {
                    kind: ErrorKind::UnsupportedOperation,
                    message: busy_message(),
                }),
                RecordClass::Empty => outcome is Ok && outcome->Ok_0 is Nothing,
                RecordClass::Misplaced => outcome is Err && outcome->Err_0@
                    == misplaced_range_error(start_unit as nat, length_units as nat),
                RecordClass::Ignored => outcome is Ok && outcome->Ok_0 is Nothing,
                RecordClass::Held => outcome is Ok && (if action == CorrectiveAction::Replace {
                    outcome->Ok_0 is Replacement
                } else {
                    outcome->Ok_0 matches Fetch::Suggestions(word) && word@ == old(self)@.token_of(
                        start_unit as int,
                        length_units as int,
                    ).word
                }),
            },
    {
        if self.pending.is_some() {
            return Err(
                Error::with_kind(
                    ErrorKind::UnsupportedOperation,
                    String::from_str("a span still waits for its suggestions"),
                ),
            );
        }
        if length_units == 0 {
            return Ok(Fetch::Nothing);
        }
        let token = match self.collector.text().token_from_units(start_unit, length_units) {
            Some(token) => token,
            None => { return Err(misplaced_range(start_unit, length_units)); },
        };
        let replace: bool = match action {
            CorrectiveAction::GetSuggestions => false,
            CorrectiveAction::Replace => true,
            _ => { return Ok(Fetch::Nothing); },
        };
        if !self.collector.accepts(&token) {
            return Err(misplaced_range(start_unit, length_units));
        }
        let fetch = if replace {
            Fetch::Replacement
        } else {
            Fetch::Suggestions(String::from_str(token.word()))
        };
        self.pending = Some(token);
        self.replace = replace;
        Ok(fetch)
    }

    /// What the session waits for: nothing, suggestions, or a replacement.
    pub fn awaits(&self) -> (awaited: Option<bool>)
        ensures
            awaited is Some <==> self@.pending is Some,
            awaited is Some ==> awaited->0 == self@.pending->0.replace,
    {
        match &self.pending {
            Some(_) => Some(self.replace),
            None => None,
        }
    }

    /// Takes the suggestions that were asked for, in the engine's order,
    /// and flags the span that waited for them. Says whether suggestions
    /// were awaited; if not, nothing changes.
    pub fn suggestions(&mut self, suggestions: Vec<String>) -> (taken: bool)
        requires
            old(self).well_formed(),
        ensures
            final(self).well_formed(),
            taken == (old(self)@.pending is Some && !old(self)@.pending->0.replace),
            taken ==> final(self)@ == old(self)@.after_fetch(suggestions.deep_view()),
            !taken ==> final(self)@ == old(self)@,
    {
        if self.replace {
            return false;
        }
        match self.pending.take() {
            Some(token) => {
                let outcome = self.collector.accept(token, suggestions);
                assert(outcome is Ok);
                true
            },
            None => false,
        }
    }

    /// Takes the replacement that was asked for and flags the span that
    /// waited for it, with the replacement as its one suggestion. Says
    /// whether a replacement was awaited; if not, nothing changes.
    pub fn replacement(&mut self, replacement: String) -> (taken: bool)
        requires
            old(self).well_formed(),
        ensures
            final(self).well_formed(),
            taken == (old(self)@.pending is Some && old(self)@.pending->0.replace),
            taken ==> final(self)@ == old(self)@.after_fetch(seq![replacement@]),
            !taken ==> final(self)@ == old(self)@,
    {
        if !self.replace {
            return false;
        }
        match self.pending.take() {
            Some(token) => {
                let mut suggestions: Vec<String> = Vec::new();
                suggestions.push(replacement);
                assert(suggestions.deep_view() =~= seq![replacement@]);
                let outcome = self.collector.accept(token, suggestions);
                assert(outcome is Ok);
                self.replace = false;
                true
            },
            None => false,
        }
    }

    /// Whether nothing has been flagged: the text, taken as one word, is
    /// spelled correctly as far as the records went. It is so exactly if
    /// [`TransactionalCheck::into_spans`] hands out no span.
    pub fn is_clean(&self) -> (clean: bool)
        ensures
            clean == self@.word_accepted(),
            clean == (self@.flagged.len() == 0),
    {
        self.collector.is_clean()
    }

    /// Ends the check and hands out the flagged spans, in the order of
    /// the records. A span that still waits is not among them.
    pub fn into_spans(self) -> (spans: Vec<TokenWithSuggestions>)
        requires
            self.well_formed(),
        ensures
            spans.deep_view() == self@.flagged,
            spans_valid(self@.text, spans.deep_view()),
    {
        self.collector.into_spans()
    }
}

} // verus!
