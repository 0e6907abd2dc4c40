//! The language that a checker starts with, as the system names it in a
//! buffer of UTF-16 code units.

use vstd::prelude::*;
use vstd::slice::slice_subrange;

verus! {

/// What `String::from_utf16_lossy` makes of a sequence of UTF-16 code
/// units: the text they encode, with U+FFFD in place of each unit that
/// has no partner to form a character with.
pub uninterp spec fn utf16_lossy(units: Seq<u16>) -> Seq<char>;

/// Decodes UTF-16 code units by `String::from_utf16_lossy` of the standard
/// library. Nothing is proved of it here; the contract gives the result
/// its name, [`utf16_lossy`], and claims no more than that the same units
/// always decode to the same text.
#[verifier::external_body]
fn decode_utf16_lossy(units: &[u16]) -> (text: String)
    ensures
        text@ == utf16_lossy(units@),
{
    String::from_utf16_lossy(units)
}

/// Whether no unit of the buffer is set.
pub open spec fn is_blank(units: Seq<u16>) -> bool {
    forall|k: int| 0 <= k < units.len() ==> units[k] == 0
}

/// How many units stand in front of the first zero, or in the buffer if
/// it holds no zero.
pub open spec fn terminated_len(units: Seq<u16>) -> int
    decreases units.len(),
{
    if units.len() == 0 || units[0] == 0 {
        0
    } else {
        1 + terminated_len(units.drop_first())
    }
}

/// The units in front of the first zero: the name that a zero-terminated
/// buffer holds.
pub open spec fn terminated(units: Seq<u16>) -> Seq<u16> {
    units.take(terminated_len(units))
}

/// The language that is taken where the system names none.
pub open spec fn fallback_locale() -> Seq<char> {
    "en-US"@
}

/// The length of the name lies in the buffer, no unit of the name is
/// zero, and the name ends at a zero or at the end of the buffer.
pub proof fn lemma_terminated_len(units: Seq<u16>)
    ensures
        0 <= terminated_len(units) <= units.len(),
        forall|k: int| 0 <= k < terminated_len(units) ==> units[k] != 0,
        terminated_len(units) < units.len() ==> units[terminated_len(units)] == 0,
    decreases units.len(),
{
    if units.len() != 0 && units[0] != 0 {
        let rest = units.drop_first();
        lemma_terminated_len(rest);
        assert forall|k: int| 0 <= k < terminated_len(units) implies units[k] != 0 by {
            if k > 0 {
                assert(rest[k - 1] == units[k]);
            }
        }
        if terminated_len(units) < units.len() {
            assert(rest[terminated_len(rest)] == units[terminated_len(units)]);
        }
    }
}

/// The first place with a zero, or the end of the buffer, is where the
/// name ends.
pub proof fn lemma_terminated_at(units: Seq<u16>, end: int)
    requires
        0 <= end <= units.len(),
        forall|k: int| 0 <= k < end ==> units[k] != 0,
        end < units.len() ==> units[end] == 0,
    ensures
        terminated_len(units) == end,
{
    lemma_terminated_len(units);
    let found = terminated_len(units);
    if found < end {
        assert(units[found] != 0);
    } else if end < found {
        assert(units[end] != 0);
    }
}

/// The language that a checker starts with, read from the buffer in which
/// the system names its language: `en-US` where the buffer names none, and
/// else the name that stands in front of the first zero.
pub fn initial_locale(name: &[u16]) -> (locale: String)
    ensures
        is_blank(name@) ==> locale@ == fallback_locale(),
        !is_blank(name@) ==> locale@ == utf16_lossy(terminated(name@)),
{
    let mut blank: bool = true;
    let mut i: usize = 0;
    while i < name.len()
        invariant
            i <= name.len(),
            blank == (forall|k: int| 0 <= k < i ==> name@[k] == 0),
        decreases name.len() - i,
    {
        if name[i] != 0 {
            blank = false;
        }
        i = i + 1;
    }
    if blank {
        return String::from_str("en-US");
    }
    let mut end: usize = 0;
    while end < name.len() && name[end] != 0
        invariant
            end <= name.len(),
            forall|k: int| 0 <= k < end ==> name@[k] != 0,
        decreases name.len() - end,
    {
        end = end + 1;
    }
    proof {
        lemma_terminated_at(name@, end as int);
        assert(name@.subrange(0, end as int) =~= terminated(name@));
    }
    decode_utf16_lossy(slice_subrange(name, 0, end))
}

} // verus!
