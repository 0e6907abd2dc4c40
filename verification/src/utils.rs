//! The data model: tokens, flagged spans and errors.

use vstd::prelude::*;
use vstd::std_specs::cmp::PartialEqSpecImpl;

verus! {

/// What a function of this crate returns when it can fail.
pub type EjaanError<T> = Result<T, Error>;

/// The mathematical value of a [`Token`].
pub struct TokenView {
    /// Code-point offset of the first character.
    pub start: nat,
    /// Code-point offset of the last character (inclusive).
    pub end: nat,
    /// The characters of the token.
    pub word: Seq<char>,
}

impl TokenView {
    /// A token covers at least one character, and its text is as long as
    /// its span.
    pub open spec fn well_formed(self) -> bool {
        &&& self.start <= self.end
        &&& self.word.len() == self.end - self.start + 1
    }

    /// The token lies in `text` and holds exactly the characters found there.
    pub open spec fn matches_text(self, text: Seq<char>) -> bool {
        &&& self.start <= self.end
        &&& self.end < text.len()
        &&& self.word == text.subrange(self.start as int, self.end as int + 1)
    }
}

/// A positioned substring produced by word segmentation.
///
/// `start` and `end` are code-point offsets; `end` is inclusive.
#[derive(Debug)]
pub struct Token {
    start: usize,
    end: usize,
    word: String,
}

impl View for Token {
    type V = TokenView;

    closed spec fn view(&self) -> TokenView {
        TokenView { start: self.start as nat, end: self.end as nat, word: self.word@ }
    }
}

impl DeepView for Token {
    type V = TokenView;

    open spec fn deep_view(&self) -> TokenView {
        self@
    }
}

impl Token {
    /// Whether the token keeps the invariant of the token model.
    pub open spec fn well_formed(&self) -> bool {
        self@.well_formed()
    }

    /// Builds a token from a span and its text.
    pub fn new(start: usize, end: usize, word: String) -> (token: Self)
        requires
            start <= end,
            word@.len() == end - start + 1,
        ensures
            token@ == (TokenView { start: start as nat, end: end as nat, word: word@ }),
            token.well_formed(),
    {
        Token { start, end, word }
    }

    /// Builds a token if the span and the text agree, and nothing otherwise.
    pub fn try_new(start: usize, end: usize, word: String) -> (token: Option<Self>)
        ensures
            token is Some <==> start <= end && word@.len() == end - start + 1,
            token is Some ==> token->0@ == (TokenView {
                start: start as nat,
                end: end as nat,
                word: word@,
            }),
    {
        if start > end {
            return None;
        }
        let span: usize = end - start;
        let count: usize = word.as_str().unicode_len();
        if count > 0 && count - 1 == span {
            Some(Token { start, end, word })
        } else {
            None
        }
    }

    /// Offset of the first character.
    pub fn start(&self) -> (start: usize)
        ensures
            start == self@.start,
    {
        self.start
    }

    /// Offset of the last character, inclusive.
    pub fn end(&self) -> (end: usize)
        ensures
            end == self@.end,
    {
        self.end
    }

    /// The text of the token.
    pub fn word(&self) -> (word: &str)
        ensures
            word@ == self@.word,
    {
        self.word.as_str()
    }

    /// The span as an inclusive range.
    pub fn range(&self) -> (range: std::ops::RangeInclusive<usize>)
        ensures
            range@.start == self@.start,
            range@.end == self@.end,
            !range@.exhausted,
    {
        std::ops::RangeInclusive::new(self.start, self.end)
    }
}

impl Clone for Token {
    fn clone(&self) -> (copy: Self)
        ensures
            copy@ == self@,
    {
        Token { start: self.start, end: self.end, word: self.word.clone() }
    }
}

impl PartialEq for Token {
    fn eq(&self, other: &Self) -> (equal: bool) {
        self.start == other.start && self.end == other.end && self.word == other.word
    }
}

impl PartialEqSpecImpl for Token {
    open spec fn obeys_eq_spec() -> bool {
        true
    }

    open spec fn eq_spec(&self, other: &Self) -> bool {
        self@ == other@
    }
}

/// The mathematical value of a [`TokenWithSuggestions`].
pub struct FlaggedSpanView {
    /// The misspelled token.
    pub token: TokenView,
    /// The candidate replacements, most relevant first.
    pub suggestions: Seq<Seq<char>>,
}

/// A token known to be misspelled, with its candidate replacements in the
/// order in which the engine ranked them.
#[derive(Debug)]
pub struct TokenWithSuggestions {
    token: Token,
    suggestions: Vec<String>,
}

impl View for TokenWithSuggestions {
    type V = FlaggedSpanView;

    closed spec fn view(&self) -> FlaggedSpanView {
        FlaggedSpanView { token: self.token@, suggestions: self.suggestions.deep_view() }
    }
}

impl DeepView for TokenWithSuggestions {
    type V = FlaggedSpanView;

    open spec fn deep_view(&self) -> FlaggedSpanView {
        self@
    }
}

impl TokenWithSuggestions {
    /// Pairs a token with its suggestions, keeping their order.
    pub fn new(token: Token, suggestions: Vec<String>) -> (span: Self)
        ensures
            span@ == (FlaggedSpanView { token: token@, suggestions: suggestions.deep_view() }),
    {
        TokenWithSuggestions { token, suggestions }
    }

    /// The misspelled token.
    pub fn token(&self) -> (token: &Token)
        ensures
            token@ == self@.token,
    {
        &self.token
    }

    /// The candidate replacements, most relevant first.
    pub fn suggestions(&self) -> (suggestions: &[String])
        ensures
            suggestions.deep_view() == self@.suggestions,
    {
        self.suggestions.as_slice()
    }

    /// Splits the span into its token and its suggestions.
    pub fn into_parts(self) -> (parts: (Token, Vec<String>))
        ensures
            parts.0@ == self@.token,
            parts.1.deep_view() == self@.suggestions,
    {
        (self.token, self.suggestions)
    }
}

impl std::ops::Deref for TokenWithSuggestions {
    type Target = Token;

    fn deref(&self) -> (token: &Token)
        ensures
            token@ == self@.token,
    {
        &self.token
    }
}

/// Copies a list of strings, one by one.
pub fn clone_strings(items: &[String]) -> (copy: Vec<String>)
    ensures
        copy.deep_view() == items.deep_view(),
{
    let mut copy: Vec<String> = Vec::new();
    let mut i: usize = 0;
    while i < items.len()
        invariant
            i <= items.len(),
            copy.len() == i,
            forall|k: int| 0 <= k < i ==> copy[k]@ == items[k]@,
        decreases items.len() - i,
    {
        copy.push(items[i].clone());
        i += 1;
    }
    assert(copy.deep_view() =~= items.deep_view());
    copy
}

impl Clone for TokenWithSuggestions {
    fn clone(&self) -> (copy: Self)
        ensures
            copy@ == self@,
    {
        TokenWithSuggestions {
            token: self.token.clone(),
            suggestions: clone_strings(self.suggestions.as_slice()),
        }
    }
}

/// The character for one decimal digit.
pub open spec fn digit_char(digit: nat) -> char
    recommends
        digit < 10,
{
    if digit == 0 {
        '0'
    } else if digit == 1 {
        '1'
    } else if digit == 2 {
        '2'
    } else if digit == 3 {
        '3'
    } else if digit == 4 {
        '4'
    } else if digit == 5 {
        '5'
    } else if digit == 6 {
        '6'
    } else if digit == 7 {
        '7'
    } else if digit == 8 {
        '8'
    } else {
        '9'
    }
}

/// A number written in decimal digits, without leading zeros.
pub open spec fn decimal_digits(number: nat) -> Seq<char>
    decreases number,
{
    if number < 10 {
        seq![digit_char(number)]
    } else {
        decimal_digits(number / 10).push(digit_char(number % 10))
    }
}

/// One decimal digit as text.
pub fn digit_text(digit: u8) -> (text: &'static str)
    requires
        digit < 10,
    ensures
        text@ == seq![digit_char(digit as nat)],
{
    proof {
        reveal_strlit("0");
        reveal_strlit("1");
        reveal_strlit("2");
        reveal_strlit("3");
        reveal_strlit("4");
        reveal_strlit("5");
        reveal_strlit("6");
        reveal_strlit("7");
        reveal_strlit("8");
        reveal_strlit("9");
    }
    let text = match digit {
        0 => "0",
        1 => "1",
        2 => "2",
        3 => "3",
        4 => "4",
        5 => "5",
        6 => "6",
        7 => "7",
        8 => "8",
        _ => "9",
    };
    assert(text@ =~= seq![digit_char(digit as nat)]);
    text
}

/// A number written in decimal digits, without leading zeros.
pub fn decimal(number: u128) -> (text: String)
    ensures
        text@ == decimal_digits(number as nat),
    decreases number,
{
    let digit: u8 = (number % 10) as u8;
    if number < 10 {
        String::from_str(digit_text(digit))
    } else {
        let mut text = decimal(number / 10);
        text.append(digit_text(digit));
        assert(text@ =~= decimal_digits(number as nat));
        text
    }
}

/// The name of a platform: its operating system, its architecture and
/// its family, joined by hyphens.
pub open spec fn platform_triple(os: Seq<char>, arch: Seq<char>, family: Seq<char>) -> Seq<char> {
    os + seq!['-'] + arch + seq!['-'] + family
}

/// The name of a platform: its operating system, its architecture and
/// its family, joined by hyphens.
pub fn platform_name(os: &str, arch: &str, family: &str) -> (name: String)
    ensures
        name@ == platform_triple(os@, arch@, family@),
{
    proof {
        reveal_strlit("-");
    }
    let mut name = String::from_str(os);
    name.append("-");
    name.append(arch);
    name.append("-");
    name.append(family);
    assert(name@ =~= platform_triple(os@, arch@, family@));
    name
}

/// Why an operation failed.
#[derive(Debug, Clone, Copy, PartialEq, Eq, Structural)]
pub enum ErrorKind {
    /// The native engine could not be brought up.
    ConstructionFailure,
    /// The active backend cannot provide the capability that was asked for.
    UnsupportedOperation,
    /// A position reported by the engine does not fit the text.
    InvalidRange,
    /// The wrapped engine reported an error of its own.
    NativeEngineFailure,
}

/// The mathematical value of an [`Error`].
pub struct ErrorView {
    /// The class of the failure.
    pub kind: ErrorKind,
    /// The text that describes it.
    pub message: Seq<char>,
}

/// Error type for the spell checker.
#[derive(Debug)]
pub struct Error {
    kind: ErrorKind,
    message: String,
}

impl View for Error {
    type V = ErrorView;

    closed spec fn view(&self) -> ErrorView {
        ErrorView { kind: self.kind, message: self.message@ }
    }
}

impl Error {
    /// The text put in front of the platform's name by [`Error::unimplemented`].
    pub open spec fn unimplemented_prefix() -> Seq<char> {
        "Function is not implemented for this platform: "@
    }

    /// An error passed through from the native engine.
    pub fn new(message: String) -> (error: Self)
        ensures
            error@ == (ErrorView { kind: ErrorKind::NativeEngineFailure, message: message@ }),
    {
        Error { kind: ErrorKind::NativeEngineFailure, message }
    }

    /// An error of the given kind.
    pub fn with_kind(kind: ErrorKind, message: String) -> (error: Self)
        ensures
            error@ == (ErrorView { kind, message: message@ }),
    {
        Error { kind, message }
    }

    /// The text that describes the failure.
    pub fn message(&self) -> (message: &str)
        ensures
            message@ == self@.message,
    {
        self.message.as_str()
    }

    /// The class of the failure.
    pub fn kind(&self) -> (kind: ErrorKind)
        ensures
            kind == self@.kind,
    {
        self.kind
    }

    /// The error of a backend that offers nothing on the named platform.
    pub fn unimplemented(platform: &str) -> (error: Self)
        ensures
            error@ == (ErrorView {
                kind: ErrorKind::UnsupportedOperation,
                message: Self::unimplemented_prefix() + platform@,
            }),
    {
        let mut message = String::from_str("Function is not implemented for this platform: ");
        message.append(platform);
        Error { kind: ErrorKind::UnsupportedOperation, message }
    }
}

impl Error {
    /// The error of a backend that offers nothing on the platform with
    /// the given operating system, architecture and family.
    pub fn unimplemented_on(os: &str, arch: &str, family: &str) -> (error: Self)
        ensures
            error@ == (ErrorView {
                kind: ErrorKind::UnsupportedOperation,
                message: Self::unimplemented_prefix() + platform_triple(os@, arch@, family@),
            }),
    {
        let platform = platform_name(os, arch, family);
        Error::unimplemented(platform.as_str())
    }
}

impl Clone for Error {
    fn clone(&self) -> (copy: Self)
        ensures
            copy@ == self@,
    {
        Error { kind: self.kind, message: self.message.clone() }
    }
}

} // verus!
