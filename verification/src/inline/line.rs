//! Lines of inline items: dash kinds and the logical order of items.

use vstd::prelude::*;
use crate::text::{chars_are, chars_of};

verus! {

/// A dash at the end of a line.
#[derive(Clone, Copy, PartialEq, Eq, Structural, Debug, Hash)]
pub enum Dash {
    /// A soft hyphen added to break a word.
    Soft,
    /// A regular hyphen, present in a compound word.
    Hard,
    /// Another kind of dash.
    Other,
}

/// The position of an item in the logical order of a line: a hyphen at
/// the start comes first, then the paragraph's items in order, then a
/// hyphen at the end.
#[derive(Clone, Copy, PartialEq, Eq, Structural, Debug, Hash)]
pub struct LogicalIndex(pub usize);

impl LogicalIndex {
    /// The index of a hyphen at the start of a line.
    pub fn start_hyphen() -> (r: LogicalIndex)
        ensures
            r.0 == 0,
    {
        LogicalIndex(0)
    }

    /// The index of a hyphen at the end of a line.
    pub fn end_hyphen() -> (r: LogicalIndex)
        ensures
            r.0 == usize::MAX,
    {
        LogicalIndex(usize::MAX)
    }

    /// The logical index of the item at index `i` of the paragraph's items:
    /// one past it, leaving room for a hyphen at the start.
    pub fn from_item_index(i: usize) -> (r: LogicalIndex)
        requires
            i < usize::MAX,
        ensures
            r.0 == i + 1,
    {
        LogicalIndex(i + 1)
    }
}


/// Whether `c` is uppercase, per `char::is_uppercase`.
pub uninterp spec fn uppercase(c: char) -> bool;

/// `char::is_uppercase`: the contract names its result `uppercase(c)` and
/// claims nothing more of it.
#[verifier::external_body]
fn is_uppercase(c: char) -> (r: bool)
    ensures
        r == uppercase(c),
{
    c.is_uppercase()
}

/// The languages, by code, that repeat a hyphen at the start of the next
/// line: Lower Sorbian, Czech, Croatian, Polish, Portuguese and Slovak.
pub open spec fn repeats_hyphen(lang: Seq<char>) -> bool {
    ||| lang == seq!['d', 's', 'b']
    ||| lang == seq!['c', 's']
    ||| lang == seq!['h', 'r']
    ||| lang == seq!['p', 'l']
    ||| lang == seq!['p', 't']
    ||| lang == seq!['s', 'k']
}

/// Whether a hyphen that breaks a word is repeated at the start of the next
/// line: always in the languages of [`repeats_hyphen`], and in Spanish
/// when the next line does not start with an uppercase letter.
pub fn should_repeat_hyphen(lang: &str, following_text: &str) -> (r: bool)
    ensures
        r == (repeats_hyphen(lang@) || (lang@ == seq!['e', 's'] && following_text@.len() > 0
            && !uppercase(following_text@[0]))),
{
    let code = chars_of(lang);
    let dsb: [char; 3] = ['d', 's', 'b'];
    let cs: [char; 2] = ['c', 's'];
    let hr: [char; 2] = ['h', 'r'];
    let pl: [char; 2] = ['p', 'l'];
    let pt: [char; 2] = ['p', 't'];
    let sk: [char; 2] = ['s', 'k'];
    let es: [char; 2] = ['e', 's'];
    assert(dsb@ == seq!['d', 's', 'b']);
    assert(cs@ == seq!['c', 's']);
    assert(hr@ == seq!['h', 'r']);
    assert(pl@ == seq!['p', 'l']);
    assert(pt@ == seq!['p', 't']);
    assert(sk@ == seq!['s', 'k']);
    assert(es@ == seq!['e', 's']);
    if chars_are(&code, &dsb) || chars_are(&code, &cs) || chars_are(&code, &hr) || chars_are(&code, &pl)
        || chars_are(&code, &pt) || chars_are(&code, &sk) {
        return true;
    }
    if chars_are(&code, &es) {
        let following = chars_of(following_text);
        if following.len() > 0 {
            return !is_uppercase(following[0]);
        }
    }
    false
}

} // verus!
