//! The fallback tokenizer: words are the maximal runs of characters that
//! are neither white space nor punctuation. An apostrophe between two such
//! characters belongs to the word around it.

use crate::aggregator::misplaced_range;
use crate::aggregator::misplaced_range_error;
use crate::aggregator::token_matches;
use crate::offsets::covers_whole_chars;
use crate::offsets::lemma_token_at_units;
use crate::offsets::lemma_unit_offset_increasing;
use crate::offsets::token_at_units;
use crate::offsets::unit_offset;
use crate::utils::Error;
use crate::offsets::chars_of;
use crate::offsets::IndexedText;
use crate::utils::Token;
use crate::utils::TokenView;
use vstd::prelude::*;

verus! {

/// White space, control characters and punctuation: what separates words.
pub open spec fn is_separator(c: char) -> bool {
    let v = c as u32;
    ||| v <= 0x2F
    ||| 0x3A <= v <= 0x40
    ||| 0x5B <= v <= 0x60
    ||| 0x7B <= v <= 0xBF
    ||| v == 0xD7
    ||| v == 0xF7
    ||| v == 0x1680
    ||| 0x2000 <= v <= 0x206F
    ||| 0x3000 <= v <= 0x303F
    ||| 0xFF00 <= v <= 0xFF0F
    ||| 0xFF1A <= v <= 0xFF20
    ||| 0xFF3B <= v <= 0xFF40
    ||| 0xFF5B <= v <= 0xFF65
}

/// The apostrophes, which join the two halves of a word such as "don't".
pub open spec fn is_joiner(c: char) -> bool {
    c == '\'' || c == '\u{2019}'
}

/// Whether the character at `index` belongs to a word of the text: it is
/// no separator, or it is an apostrophe between two characters that are no
/// separators.
pub open spec fn in_word(text: Seq<char>, index: int) -> bool {
    &&& 0 <= index < text.len()
    &&& (!is_separator(text[index]) || (is_joiner(text[index]) && 0 < index && index + 1
        < text.len() && !is_separator(text[index - 1]) && !is_separator(text[index + 1])))
}

/// Whether `token` is a word of the text: a run of word characters that
/// cannot be extended to either side, with the text found there.
pub open spec fn is_word_of(text: Seq<char>, token: TokenView) -> bool {
    &&& token.matches_text(text)
    &&& forall|p: int| token.start <= p <= token.end ==> in_word(text, p)
    &&& !in_word(text, token.start as int - 1)
    &&& !in_word(text, token.end as int + 1)
}

/// Whether the tokens are in ascending order and never overlap: each
/// ends before the next starts. Two tokens may touch.
pub open spec fn tokens_ascending(tokens: Seq<TokenView>) -> bool {
    forall|j: int, k: int| 0 <= j < k < tokens.len() ==> tokens[j].end < tokens[k].start
}

/// Whether `tokens` are the words of the first `upto` characters of the
/// text: each is a word, they are ascending, and no word character before
/// `upto` is left out.
pub open spec fn tokenizes_prefix(text: Seq<char>, tokens: Seq<TokenView>, upto: int) -> bool {
    &&& forall|k: int| 0 <= k < tokens.len() ==> is_word_of(text, #[trigger] tokens[k])
    &&& forall|k: int| 0 <= k < tokens.len() ==> (#[trigger] tokens[k]).end < upto
    &&& tokens_ascending(tokens)
    &&& forall|p: int|
        0 <= p < upto && #[trigger] in_word(text, p) ==> exists|k: int|
            0 <= k < tokens.len() && (#[trigger] tokens[k]).start <= p <= tokens[k].end
}

/// Whether `tokens` are the words of the text.
pub open spec fn tokenizes(text: Seq<char>, tokens: Seq<TokenView>) -> bool {
    tokenizes_prefix(text, tokens, text.len() as int)
}

/// Two words of one text that share a character are the same word.
pub proof fn lemma_word_through_position(text: Seq<char>, first: TokenView, second: TokenView, p: int)
    requires
        is_word_of(text, first),
        is_word_of(text, second),
        first.start <= p <= first.end,
        second.start <= p <= second.end,
    ensures
        first == second,
{
    if first.start < second.start {
        assert(in_word(text, second.start as int - 1));
    } else if second.start < first.start {
        assert(in_word(text, first.start as int - 1));
    }
    if first.end < second.end {
        assert(in_word(text, first.end as int + 1));
    } else if second.end < first.end {
        assert(in_word(text, second.end as int + 1));
    }
}

/// Every word of one tokenization stands in any other tokenization of the
/// same text.
proof fn lemma_word_is_found(text: Seq<char>, tokens: Seq<TokenView>, other: Seq<TokenView>, k: int) -> (j:
    int)
    requires
        tokenizes(text, tokens),
        tokenizes(text, other),
        0 <= k < tokens.len(),
    ensures
        0 <= j < other.len(),
        other[j] == tokens[k],
{
    let p = tokens[k].start as int;
    assert(is_word_of(text, tokens[k]));
    assert(in_word(text, p));
    let j = choose|j: int| 0 <= j < other.len() && (#[trigger] other[j]).start <= p <= other[j].end;
    lemma_word_through_position(text, tokens[k], other[j], p);
    j
}

/// Two tokenizations of one text agree on their first `k + 1` words.
proof fn lemma_same_word_at(text: Seq<char>, first: Seq<TokenView>, second: Seq<TokenView>, k: int)
    requires
        tokenizes(text, first),
        tokenizes(text, second),
        0 <= k < first.len(),
    ensures
        k < second.len(),
        first[k] == second[k],
    decreases k,
{
    assert(is_word_of(text, first[k]));
    let j = lemma_word_is_found(text, first, second, k);
    if j < k {
        lemma_same_word_at(text, first, second, j);
        assert(first[j].end < first[k].start);
    } else if j > k {
        let i = lemma_word_is_found(text, second, first, k);
        assert(is_word_of(text, second[k]));
        assert(second[k].end < second[j].start);
        if i < k {
            lemma_same_word_at(text, first, second, i);
            assert(second[i].end < second[k].start);
        } else if i > k {
            assert(first[k].end < first[i].start);
        }
    }
}

/// A text has one tokenization only: whoever splits it by these rules gets
/// the same words at the same places.
pub proof fn lemma_tokenization_unique(text: Seq<char>, first: Seq<TokenView>, second: Seq<TokenView>)
    requires
        tokenizes(text, first),
        tokenizes(text, second),
    ensures
        first == second,
{
    if first.len() > 0 {
        lemma_same_word_at(text, first, second, first.len() - 1);
    }
    if second.len() > 0 {
        lemma_same_word_at(text, second, first, second.len() - 1);
    }
    assert forall|k: int| 0 <= k < first.len() implies first[k] == second[k] by {
        lemma_same_word_at(text, first, second, k);
    }
    assert(first =~= second);
}

/// A text that is one word from end to end has that word as its only
/// token.
pub proof fn lemma_single_word(text: Seq<char>, tokens: Seq<TokenView>)
    requires
        tokenizes(text, tokens),
        text.len() > 0,
        forall|p: int| 0 <= p < text.len() ==> in_word(text, p),
    ensures
        tokens == seq![TokenView { start: 0, end: (text.len() - 1) as nat, word: text }],
{
    let whole = TokenView { start: 0, end: (text.len() - 1) as nat, word: text };
    let alone = seq![whole];
    assert(text.subrange(0, text.len() as int) =~= text);
    assert(is_word_of(text, whole));
    assert(alone[0] == whole);
    assert(tokenizes(text, alone)) by {
        assert forall|p: int| 0 <= p < text.len() && #[trigger] in_word(text, p) implies exists|
            k: int,
        |
            0 <= k < alone.len() && (#[trigger] alone[k]).start <= p <= alone[k].end by {
            assert(alone[0].start <= p <= alone[0].end);
        }
    }
    lemma_tokenization_unique(text, tokens, alone);
}

/// The words of a text are in ascending order and never overlap, each lies
/// in the text, and a text without word characters has no words.
pub proof fn lemma_tokenization_shape(text: Seq<char>, tokens: Seq<TokenView>)
    requires
        tokenizes(text, tokens),
    ensures
        tokens_ascending(tokens),
        forall|k: int| 0 <= k < tokens.len() ==> (#[trigger] tokens[k]).matches_text(text),
        forall|k: int| 0 <= k < tokens.len() ==> (#[trigger] tokens[k]).well_formed(),
        (forall|p: int| 0 <= p < text.len() ==> !in_word(text, p)) ==> tokens.len() == 0,
{
    assert forall|k: int| 0 <= k < tokens.len() implies (#[trigger] tokens[k]).well_formed() by {
        assert(is_word_of(text, tokens[k]));
    }
    if tokens.len() > 0 {
        assert(is_word_of(text, tokens[0]));
        assert(in_word(text, tokens[0].start as int));
    }
}

/// Whether a character separates words.
pub fn separates(c: char) -> (separator: bool)
    ensures
        separator == is_separator(c),
{
    let v: u32 = c as u32;
    v <= 0x2F || (0x3A <= v && v <= 0x40) || (0x5B <= v && v <= 0x60) || (0x7B <= v && v <= 0xBF)
        || v == 0xD7 || v == 0xF7 || v == 0x1680 || (0x2000 <= v && v <= 0x206F) || (0x3000 <= v
        && v <= 0x303F) || (0xFF00 <= v && v <= 0xFF0F) || (0xFF1A <= v && v <= 0xFF20) || (0xFF3B
        <= v && v <= 0xFF40) || (0xFF5B <= v && v <= 0xFF65)
}

/// Whether the character at `index` belongs to a word of the text.
pub fn belongs_to_word(chars: &Vec<char>, index: usize) -> (inside: bool)
    ensures
        inside == in_word(chars@, index as int),
{
    if index >= chars.len() {
        return false;
    }
    let c: char = chars[index];
    if !separates(c) {
        return true;
    }
    if !(c == '\'' || c == '\u{2019}') {
        return false;
    }
    if index == 0 || index >= chars.len() - 1 {
        return false;
    }
    !separates(chars[index - 1]) && !separates(chars[index + 1])
}

/// Splits a text into its words, in the order in which they stand.
///
/// An empty text, or one of white space and punctuation only, has none.
pub fn tokenize(text: &str) -> (tokens: Vec<Token>)
    ensures
        tokenizes(text@, tokens.deep_view()),
{
    let chars = chars_of(text);
    let n: usize = chars.len();
    let mut tokens: Vec<Token> = Vec::new();
    let mut i: usize = 0;
    while i < n
        invariant
            chars@ == text@,
            n == chars.len(),
            i <= n,
            i < n ==> !in_word(text@, i - 1),
            tokenizes_prefix(text@, tokens.deep_view(), i as int),
        decreases n - i,
    {
        if !belongs_to_word(&chars, i) {
            i = i + 1;
            continue ;
        }
        let start: usize = i;
        let mut end: usize = i;
        while end + 1 < n && belongs_to_word(&chars, end + 1)
            invariant
                chars@ == text@,
                n == chars.len(),
                start <= end < n,
                forall|p: int| start <= p <= end ==> in_word(text@, p),
            decreases n - end,
        {
            end = end + 1;
        }
        let word = String::from_str(text.substring_char(start, end + 1));
        let token = Token::new(start, end, word);
        let ghost before = tokens.deep_view();
        tokens.push(token);
        proof {
            let after = tokens.deep_view();
            assert(after =~= before.push(token@));
            assert(is_word_of(text@, token@));
            assert forall|p: int| 0 <= p < end + 2 && #[trigger] in_word(text@, p) implies exists|
                k: int,
            |
                0 <= k < after.len() && (#[trigger] after[k]).start <= p <= after[k].end by {
                if p < start {
                    let k = choose|k: int|
                        0 <= k < before.len() && (#[trigger] before[k]).start <= p
                            <= before[k].end;
                    assert(after[k] == before[k]);
                } else {
                    assert(after[before.len() as int] == token@);
                }
            }
        }
        i = if end + 1 < n {
            end + 2
        } else {
            n
        };
    }
    tokens
}

/// Whether the tokens could be the words of the text under some
/// segmentation: each holds the text found at its place, and they are in
/// ascending order without overlap.
pub open spec fn tokens_valid(text: Seq<char>, tokens: Seq<TokenView>) -> bool {
    &&& tokens_ascending(tokens)
    &&& forall|k: int| 0 <= k < tokens.len() ==> (#[trigger] tokens[k]).matches_text(text)
}

/// The words that the fallback tokenizer finds are valid tokens.
pub proof fn lemma_tokenization_valid(text: Seq<char>, tokens: Seq<TokenView>)
    requires
        tokenizes(text, tokens),
    ensures
        tokens_valid(text, tokens),
{
    lemma_tokenization_shape(text, tokens);
}

/// Whether the tokens could be the words of the text under some
/// segmentation.
pub fn tokens_are_valid(text: &IndexedText, tokens: &Vec<Token>) -> (valid: bool)
    ensures
        valid == tokens_valid(text@, tokens.deep_view()),
{
    let ghost all = tokens.deep_view();
    let count: usize = text.len();
    let mut floor: usize = 0;
    let mut i: usize = 0;
    while i < tokens.len()
        invariant
            all == tokens.deep_view(),
            count == text@.len(),
            i <= tokens.len(),
            tokens_valid(text@, all.take(i as int)),
            floor <= count,
            i == 0 ==> floor == 0,
            i > 0 ==> floor == all[i - 1].end + 1,
        decreases tokens.len() - i,
    {
        let token = &tokens[i];
        proof {
            assert(all[i as int] == tokens[i as int]@);
        }
        if !token_matches(text, token) {
            return false;
        }
        if token.start() < floor {
            proof {
                if tokens_ascending(all) {
                    assert(all[i - 1].end < all[i as int].start);
                }
            }
            return false;
        }
        proof {
            let seen = all.take(i as int);
            let next = all.take(i + 1);
            assert forall|j: int, k: int| 0 <= j < k < next.len() implies next[j].end
                < next[k].start by {
                if k < i {
                    assert(seen[j].end < seen[k].start);
                } else if j < i - 1 {
                    assert(seen[j].end < seen[i - 1].start);
                    assert(seen[i - 1].matches_text(text@));
                }
            }
        }
        floor = token.end() + 1;
        i = i + 1;
    }
    proof {
        assert(all.take(tokens.len() as int) =~= all);
    }
    true
}

/// The tokens that a segmentation stands for which names its words by
/// ranges of UTF-16 code units, each a start and a length. Empty ranges
/// are passed over. There are none if a range does not cover whole
/// characters of the text, or starts before the range ahead of it ends.
pub open spec fn tokens_of_ranges(text: Seq<char>, ranges: Seq<(usize, usize)>) -> Option<
    Seq<TokenView>,
>
    decreases ranges.len(),
{
    if ranges.len() == 0 {
        Some(Seq::empty())
    } else {
        match tokens_of_ranges(text, ranges.drop_last()) {
            None => None,
            Some(before) => {
                let start = ranges.last().0 as int;
                let length = ranges.last().1 as int;
                let token = token_at_units(text, start, length);
                if length == 0 {
                    Some(before)
                } else if !covers_whole_chars(text, start, length) {
                    None
                } else if before.len() > 0 && token.start <= before.last().end {
                    None
                } else {
                    Some(before.push(token))
                }
            },
        }
    }
}

/// What a segmentation by ranges of code units stands for are valid
/// tokens, in code-point offsets.
pub proof fn lemma_tokens_of_ranges_valid(text: Seq<char>, ranges: Seq<(usize, usize)>)
    requires
        tokens_of_ranges(text, ranges) is Some,
    ensures
        tokens_valid(text, tokens_of_ranges(text, ranges)->0),
        tokens_of_ranges(text, ranges)->0.len() <= ranges.len(),
    decreases ranges.len(),
{
    if ranges.len() > 0 {
        let before = tokens_of_ranges(text, ranges.drop_last())->0;
        lemma_tokens_of_ranges_valid(text, ranges.drop_last());
        let start = ranges.last().0 as int;
        let length = ranges.last().1 as int;
        if length != 0 {
            let token = token_at_units(text, start, length);
            let after = before.push(token);
            let first = choose|first: int|
                0 <= first <= text.len() && #[trigger] unit_offset(text, first) == start;
            let past = choose|past: int|
                0 <= past <= text.len() && #[trigger] unit_offset(text, past) == start + length;
            if past <= first {
                if past < first {
                    lemma_unit_offset_increasing(text, past, first);
                }
            }
            lemma_token_at_units(text, start, length, first, past - 1);
            assert forall|j: int, k: int| 0 <= j < k < after.len() implies after[j].end
                < after[k].start by {
                if k == before.len() && j < before.len() - 1 {
                    assert(before[j].end < before[before.len() - 1].start);
                    assert(before[before.len() - 1].matches_text(text));
                }
            }
        }
    }
}

/// Whether the range with the given index is the first that does not fit:
/// the ranges before it stand for tokens, and with it they do not.
pub open spec fn is_first_misfit(text: Seq<char>, ranges: Seq<(usize, usize)>, index: int) -> bool {
    &&& 0 <= index < ranges.len()
    &&& tokens_of_ranges(text, ranges.take(index)) is Some
    &&& tokens_of_ranges(text, ranges.take(index + 1)) is None
}

/// The index of the first range that does not fit.
pub open spec fn first_misfit(text: Seq<char>, ranges: Seq<(usize, usize)>) -> int {
    choose|index: int| is_first_misfit(text, ranges, index)
}

/// There is at most one first range that does not fit.
pub proof fn lemma_first_misfit(text: Seq<char>, ranges: Seq<(usize, usize)>, index: int)
    requires
        is_first_misfit(text, ranges, index),
    ensures
        first_misfit(text, ranges) == index,
{
    let other = first_misfit(text, ranges);
    if other < index {
        assert(ranges.take(index).take(other + 1) =~= ranges.take(other + 1));
        lemma_ranges_fail_for_good(text, ranges.take(index), other + 1);
    } else if index < other {
        assert(ranges.take(other).take(index + 1) =~= ranges.take(index + 1));
        lemma_ranges_fail_for_good(text, ranges.take(other), index + 1);
    }
}

/// Turns a segmentation that names its words by ranges of UTF-16 code
/// units, each a start and a length, into tokens in code-point offsets.
///
/// Empty ranges are passed over. A range that does not cover whole
/// characters of the text, or that starts before the range ahead of it
/// ends, is an error that names the first such range.
pub fn tokens_from_unit_ranges(text: &IndexedText, ranges: &Vec<(usize, usize)>) -> (outcome: Result<
    Vec<Token>,
    Error,
>)
    ensures
        outcome is Ok <==> tokens_of_ranges(text@, ranges@) is Some,
        outcome is Ok ==> outcome->Ok_0.deep_view() == tokens_of_ranges(text@, ranges@)->0,
        outcome is Ok ==> tokens_valid(text@, outcome->Ok_0.deep_view()),
        outcome is Err ==> is_first_misfit(text@, ranges@, first_misfit(text@, ranges@)),
        outcome is Err ==> outcome->Err_0@ == misplaced_range_error(
            ranges[first_misfit(text@, ranges@)].0 as nat,
            ranges[first_misfit(text@, ranges@)].1 as nat,
        ),
{
    let mut tokens: Vec<Token> = Vec::new();
    let mut floor: usize = 0;
    let count: usize = text.len();
    let mut i: usize = 0;
    proof {
        assert(ranges@.take(0) =~= Seq::empty());
        assert(tokens.deep_view() =~= Seq::empty());
    }
    while i < ranges.len()
        invariant
            i <= ranges.len(),
            count == text@.len(),
            tokens_of_ranges(text@, ranges@.take(i as int)) == Some(tokens.deep_view()),
            tokens.len() == 0 ==> floor == 0,
            tokens.len() > 0 ==> floor == tokens.deep_view().last().end + 1,
            floor <= count,
        decreases ranges.len() - i,
    {
        let start: usize = ranges[i].0;
        let length: usize = ranges[i].1;
        let ghost seen = ranges@.take(i as int);
        let ghost next = ranges@.take(i + 1);
        let ghost before = tokens.deep_view();
        proof {
            assert(next.drop_last() =~= seen);
            assert(next.last() == ranges@[i as int]);
        }
        if length != 0 {
            let token = match text.token_from_units(start, length) {
                Some(token) => token,
                None => {
                    proof {
                        lemma_ranges_fail_for_good(text@, ranges@, i + 1);
                        lemma_first_misfit(text@, ranges@, i as int);
                    }
                    return Err(misplaced_range(start, length));
                },
            };
            if token.start() < floor {
                proof {
                    lemma_ranges_fail_for_good(text@, ranges@, i + 1);
                    lemma_first_misfit(text@, ranges@, i as int);
                }
                return Err(misplaced_range(start, length));
            }
            floor = token.end() + 1;
            tokens.push(token);
            proof {
                assert(tokens.deep_view() =~= before.push(token@));
            }
        }
        i = i + 1;
    }
    proof {
        assert(ranges@.take(ranges.len() as int) =~= ranges@);
        lemma_tokens_of_ranges_valid(text@, ranges@);
    }
    Ok(tokens)
}

/// Once a part of the ranges stands for no tokens, no longer part does.
pub proof fn lemma_ranges_fail_for_good(text: Seq<char>, ranges: Seq<(usize, usize)>, upto: int)
    requires
        0 <= upto <= ranges.len(),
        tokens_of_ranges(text, ranges.take(upto)) is None,
    ensures
        tokens_of_ranges(text, ranges) is None,
    decreases ranges.len() - upto,
{
    if upto < ranges.len() {
        assert(ranges.take(upto + 1).drop_last() =~= ranges.take(upto));
        lemma_ranges_fail_for_good(text, ranges, upto + 1);
    } else {
        assert(ranges.take(upto) =~= ranges);
    }
}

} // verus!
