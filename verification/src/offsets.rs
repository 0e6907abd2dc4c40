//! Mapping between UTF-16 code-unit offsets and code-point offsets.

use crate::utils::Token;
use crate::utils::TokenView;
use vstd::prelude::*;

verus! {

/// Number of 16-bit code units that one character takes in UTF-16: two for
/// a character outside the Basic Multilingual Plane, one for any other.
pub open spec fn utf16_len(c: char) -> nat {
    if c as u32 >= 0x10000 {
        2
    } else {
        1
    }
}

/// Number of 16-bit code units that a text takes in UTF-16.
pub open spec fn utf16_units(text: Seq<char>) -> nat
    decreases text.len(),
{
    if text.len() == 0 {
        0
    } else {
        utf16_units(text.drop_last()) + utf16_len(text.last())
    }
}

/// The code-unit offset at which the character with code-point offset
/// `index` starts; for `index == text.len()`, the length of the text in
/// code units.
pub open spec fn unit_offset(text: Seq<char>, index: int) -> nat
    recommends
        0 <= index <= text.len(),
{
    utf16_units(text.take(index))
}

/// Whether a code-unit offset falls between two characters of the text (or
/// at one of its ends), and not inside a surrogate pair or past the end.
pub open spec fn is_unit_boundary(text: Seq<char>, unit: int) -> bool {
    exists|index: int| 0 <= index <= text.len() && #[trigger] unit_offset(text, index) == unit
}

/// Whether every character of the text lies in the Basic Multilingual Plane.
pub open spec fn all_bmp(text: Seq<char>) -> bool {
    forall|k: int| 0 <= k < text.len() ==> utf16_len(#[trigger] text[k]) == 1
}

/// Moving one character forward moves the code-unit offset by the width of
/// that character.
pub proof fn lemma_unit_offset_step(text: Seq<char>, index: int)
    requires
        0 <= index < text.len(),
    ensures
        unit_offset(text, index + 1) == unit_offset(text, index) + utf16_len(text[index]),
        unit_offset(text, 0) == 0,
{
    assert(text.take(index + 1).drop_last() =~= text.take(index));
    assert(text.take(index + 1).last() == text[index]);
    assert(text.take(0) =~= Seq::<char>::empty());
}

/// The code-unit offset grows strictly with the code-point offset.
pub proof fn lemma_unit_offset_increasing(text: Seq<char>, lower: int, upper: int)
    requires
        0 <= lower < upper <= text.len(),
    ensures
        unit_offset(text, lower) < unit_offset(text, upper),
    decreases upper - lower,
{
    lemma_unit_offset_step(text, upper - 1);
    if lower < upper - 1 {
        lemma_unit_offset_increasing(text, lower, upper - 1);
    }
}

/// Two code-point offsets with the same code-unit offset are the same: the
/// mapping from code units to code points has at most one answer.
pub proof fn lemma_unit_offset_injective(text: Seq<char>, first: int, second: int)
    requires
        0 <= first <= text.len(),
        0 <= second <= text.len(),
        unit_offset(text, first) == unit_offset(text, second),
    ensures
        first == second,
{
    if first < second {
        lemma_unit_offset_increasing(text, first, second);
    } else if second < first {
        lemma_unit_offset_increasing(text, second, first);
    }
}

/// A code-unit offset is never smaller than the code-point offset it
/// belongs to, and never more than twice as large.
pub proof fn lemma_unit_offset_bounds(text: Seq<char>, index: int)
    requires
        0 <= index <= text.len(),
    ensures
        index <= unit_offset(text, index) <= 2 * index,
    decreases index,
{
    if index > 0 {
        lemma_unit_offset_step(text, index - 1);
        lemma_unit_offset_bounds(text, index - 1);
    } else {
        assert(text.take(0) =~= Seq::<char>::empty());
    }
}

/// In a text without characters outside the Basic Multilingual Plane the
/// two kinds of offset coincide.
pub proof fn lemma_unit_offset_bmp(text: Seq<char>, index: int)
    requires
        0 <= index <= text.len(),
        all_bmp(text),
    ensures
        unit_offset(text, index) == index,
    decreases index,
{
    if index > 0 {
        lemma_unit_offset_step(text, index - 1);
        lemma_unit_offset_bmp(text, index - 1);
    } else {
        assert(text.take(0) =~= Seq::<char>::empty());
    }
}

/// Past a character outside the Basic Multilingual Plane the code-unit
/// offset is strictly larger than the code-point offset.
pub proof fn lemma_unit_offset_past_supplementary(text: Seq<char>, at: int, index: int)
    requires
        0 <= at < index <= text.len(),
        utf16_len(text[at]) == 2,
    ensures
        unit_offset(text, index) > index,
    decreases index - at,
{
    lemma_unit_offset_step(text, index - 1);
    if at < index - 1 {
        lemma_unit_offset_past_supplementary(text, at, index - 1);
    } else {
        lemma_unit_offset_bounds(text, at);
    }
}

/// A code-unit offset that lies strictly between the offsets of two
/// neighbouring characters is no boundary.
pub proof fn lemma_no_boundary_between(text: Seq<char>, index: int, unit: int)
    requires
        0 <= index < text.len(),
        unit_offset(text, index) < unit < unit_offset(text, index + 1),
    ensures
        !is_unit_boundary(text, unit),
{
    assert forall|k: int| 0 <= k <= text.len() implies #[trigger] unit_offset(text, k) != unit by {
        if k < index {
            lemma_unit_offset_increasing(text, k, index);
        } else if k > index + 1 {
            lemma_unit_offset_increasing(text, index + 1, k);
        }
    }
}

/// Number of 16-bit code units that one character takes in UTF-16.
pub fn utf16_width(c: char) -> (width: usize)
    ensures
        width == utf16_len(c),
{
    if c as u32 >= 0x10000 {
        2
    } else {
        1
    }
}

/// Walks `distance` code units forward from the character with code-point
/// offset `from`, and returns the code-point offset of the place reached.
///
/// Returns nothing if that place lies inside a surrogate pair or past the
/// end of the text.
pub fn advance_units(chars: &Vec<char>, from: usize, distance: usize) -> (index: Option<usize>)
    requires
        from <= chars.len(),
    ensures
        index is Some <==> is_unit_boundary(chars@, unit_offset(chars@, from as int) + distance),
        index is Some ==> from <= index->0 <= chars.len() && unit_offset(
            chars@,
            index->0 as int,
        ) == unit_offset(chars@, from as int) + distance,
{
    let ghost target: int = unit_offset(chars@, from as int) + distance;
    let mut at: usize = from;
    let mut left: usize = distance;
    while at < chars.len() && left > 0
        invariant
            from <= at <= chars.len(),
            target == unit_offset(chars@, from as int) + distance,
            unit_offset(chars@, at as int) + left == target,
        decreases chars.len() - at,
    {
        proof {
            lemma_unit_offset_step(chars@, at as int);
        }
        let width: usize = utf16_width(chars[at]);
        if width > left {
            proof {
                lemma_no_boundary_between(chars@, at as int, target);
            }
            return None;
        }
        left = left - width;
        at = at + 1;
    }
    if left == 0 {
        Some(at)
    } else {
        proof {
            assert forall|k: int| 0 <= k <= chars.len() implies #[trigger] unit_offset(chars@, k)
                != target by {
                if k < at {
                    lemma_unit_offset_increasing(chars@, k, at as int);
                }
            }
        }
        None
    }
}

/// Maps a code-unit offset to the code-point offset of the same
/// place in the text.
///
/// Returns nothing if the offset lies inside a surrogate pair or past the
/// end of the text.
pub fn code_point_index(chars: &Vec<char>, unit: usize) -> (index: Option<usize>)
    ensures
        index is Some <==> is_unit_boundary(chars@, unit as int),
        index is Some ==> index->0 <= chars.len() && unit_offset(chars@, index->0 as int) == unit,
{
    proof {
        assert(chars@.take(0) =~= Seq::<char>::empty());
    }
    advance_units(chars, 0, unit)
}

/// Whether `start..=end` is the span, in code points, of the characters
/// that take up `length_units` code units from code-unit offset
/// `start_unit` on.
pub open spec fn is_span_of_units(
    text: Seq<char>,
    start_unit: int,
    length_units: int,
    start: int,
    end: int,
) -> bool {
    &&& 0 <= start <= end < text.len()
    &&& unit_offset(text, start) == start_unit
    &&& unit_offset(text, end + 1) == start_unit + length_units
}

/// Whether a range of code units covers one or more whole characters of
/// the text.
pub open spec fn covers_whole_chars(text: Seq<char>, start_unit: int, length_units: int) -> bool {
    &&& length_units > 0
    &&& is_unit_boundary(text, start_unit)
    &&& is_unit_boundary(text, start_unit + length_units)
}

/// A range of code units has at most one span in code points.
pub proof fn lemma_span_of_units_unique(
    text: Seq<char>,
    start_unit: int,
    length_units: int,
    first: (int, int),
    second: (int, int),
)
    requires
        is_span_of_units(text, start_unit, length_units, first.0, first.1),
        is_span_of_units(text, start_unit, length_units, second.0, second.1),
    ensures
        first == second,
{
    lemma_unit_offset_injective(text, first.0, second.0);
    lemma_unit_offset_injective(text, first.1 + 1, second.1 + 1);
}

/// Maps a range given in UTF-16 code units to the inclusive span
/// of code-point offsets that covers the same characters.
///
/// Returns nothing if the range is empty, if one of its ends lies inside a
/// surrogate pair, or if it reaches past the end of the text.
pub fn code_point_span(chars: &Vec<char>, start_unit: usize, length_units: usize) -> (span: Option<
    (usize, usize),
>)
    ensures
        span is Some <==> covers_whole_chars(chars@, start_unit as int, length_units as int),
        span matches Some(found) ==> is_span_of_units(
            chars@,
            start_unit as int,
            length_units as int,
            found.0 as int,
            found.1 as int,
        ),
{
    if length_units == 0 {
        return None;
    }
    let start: usize = match code_point_index(chars, start_unit) {
        Some(start) => start,
        None => { return None; },
    };
    match advance_units(chars, start, length_units) {
        Some(past) => {
            proof {
                if past == start {
                    assert(false);
                }
            }
            Some((start, past - 1))
        },
        None => None,
    }
}

/// Length of the text in UTF-16 code units, or nothing if that number does
/// not fit the machine word.
pub fn unit_length(chars: &Vec<char>) -> (length: Option<usize>)
    ensures
        length is Some <==> utf16_units(chars@) <= usize::MAX,
        length is Some ==> length->0 == utf16_units(chars@),
{
    let mut at: usize = 0;
    let mut units: usize = 0;
    proof {
        assert(chars@.take(0) =~= Seq::<char>::empty());
    }
    while at < chars.len()
        invariant
            at <= chars.len(),
            units == unit_offset(chars@, at as int),
        decreases chars.len() - at,
    {
        proof {
            lemma_unit_offset_step(chars@, at as int);
        }
        let width: usize = utf16_width(chars[at]);
        if width > usize::MAX - units {
            proof {
                if (at as int) + 1 < chars.len() {
                    lemma_unit_offset_increasing(chars@, at as int + 1, chars.len() as int);
                }
                assert(chars@.take(chars.len() as int) =~= chars@);
            }
            return None;
        }
        units = units + width;
        at = at + 1;
    }
    proof {
        assert(chars@.take(chars.len() as int) =~= chars@);
    }
    Some(units)
}

/// The characters of a string, in order.
pub fn chars_of(text: &str) -> (chars: Vec<char>)
    ensures
        chars@ == text@,
{
    let mut chars: Vec<char> = Vec::new();
    for c in it: text.chars()
        invariant
            it.seq() == text@,
            chars@ == it.seq().take(it.index() as int),
    {
        chars.push(c);
    }
    chars
}

/// The code-point offset of the place at code-unit offset `unit`, where
/// that place is a boundary of the text.
pub open spec fn index_of_unit(text: Seq<char>, unit: int) -> int {
    choose|index: int| 0 <= index <= text.len() && #[trigger] unit_offset(text, index) == unit
}

/// The token that covers the characters which take up `length_units` code
/// units from code-unit offset `start_unit` on.
pub open spec fn token_at_units(text: Seq<char>, start_unit: int, length_units: int) -> TokenView
    recommends
        covers_whole_chars(text, start_unit, length_units),
{
    let start = index_of_unit(text, start_unit);
    let past = index_of_unit(text, start_unit + length_units);
    TokenView { start: start as nat, end: (past - 1) as nat, word: text.subrange(start, past) }
}

/// The token at a range of code units is the one whose span stands for
/// the range, and it lies in the text.
pub proof fn lemma_token_at_units(
    text: Seq<char>,
    start_unit: int,
    length_units: int,
    start: int,
    end: int,
)
    requires
        is_span_of_units(text, start_unit, length_units, start, end),
    ensures
        covers_whole_chars(text, start_unit, length_units),
        token_at_units(text, start_unit, length_units) == (TokenView {
            start: start as nat,
            end: end as nat,
            word: text.subrange(start, end + 1),
        }),
        token_at_units(text, start_unit, length_units).matches_text(text),
        token_at_units(text, start_unit, length_units).well_formed(),
{
    lemma_unit_offset_increasing(text, start, end + 1);
    lemma_unit_offset_injective(text, index_of_unit(text, start_unit), start);
    lemma_unit_offset_injective(text, index_of_unit(text, start_unit + length_units), end + 1);
}

/// A text held together with its characters, so that places in it can be
/// found by code-point offset and by code-unit offset.
pub struct IndexedText {
    text: String,
    chars: Vec<char>,
}

impl View for IndexedText {
    type V = Seq<char>;

    closed spec fn view(&self) -> Seq<char> {
        self.text@
    }
}

impl IndexedText {
    #[verifier::type_invariant]
    spec fn consistent(&self) -> bool {
        self.chars@ == self.text@
    }

    /// Indexes a text.
    pub fn new(text: &str) -> (indexed: Self)
        ensures
            indexed@ == text@,
    {
        IndexedText { text: String::from_str(text), chars: chars_of(text) }
    }

    /// Number of characters of the text.
    pub fn len(&self) -> (count: usize)
        ensures
            count == self@.len(),
    {
        proof {
            use_type_invariant(self);
        }
        self.chars.len()
    }

    /// The text itself.
    pub fn as_str(&self) -> (text: &str)
        ensures
            text@ == self@,
    {
        self.text.as_str()
    }

    /// The characters of the text.
    pub fn chars(&self) -> (chars: &Vec<char>)
        ensures
            chars@ == self@,
    {
        proof {
            use_type_invariant(self);
        }
        &self.chars
    }

    /// The token that spans the characters from `start` to `end`, both
    /// included.
    pub fn token(&self, start: usize, end: usize) -> (token: Token)
        requires
            start <= end < self@.len(),
        ensures
            token@ == (TokenView {
                start: start as nat,
                end: end as nat,
                word: self@.subrange(start as int, end + 1),
            }),
            token@.matches_text(self@),
            token.well_formed(),
    {
        proof {
            use_type_invariant(self);
        }
        let count: usize = self.chars.len();
        assert(end < count);
        let word = String::from_str(self.text.as_str().substring_char(start, end + 1));
        Token::new(start, end, word)
    }

    /// The token at a range given in UTF-16 code units.
    ///
    /// Returns nothing if the range is empty, if one of its ends lies
    /// inside a surrogate pair, or if it reaches past the end of the text.
    pub fn token_from_units(&self, start_unit: usize, length_units: usize) -> (token: Option<Token>)
        ensures
            token is Some <==> covers_whole_chars(self@, start_unit as int, length_units as int),
            token is Some ==> token->0@ == token_at_units(
                self@,
                start_unit as int,
                length_units as int,
            ),
            token is Some ==> token->0@.matches_text(self@),
    {
        proof {
            use_type_invariant(self);
        }
        match code_point_span(&self.chars, start_unit, length_units) {
            Some((start, end)) => {
                proof {
                    lemma_token_at_units(
                        self@,
                        start_unit as int,
                        length_units as int,
                        start as int,
                        end as int,
                    );
                }
                Some(self.token(start, end))
            },
            None => None,
        }
    }
}

} // verus!
