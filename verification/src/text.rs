//! Character widths and small string helpers.

use vstd::prelude::*;
use vstd::string::*;
use unicode_width::UnicodeWidthChar;
use crate::scalar::TermScalar;

verus! {

/// The displayed width in columns that the Unicode width tables give `c`
/// (`None` for control characters).
pub uninterp spec fn unicode_char_width(c: char) -> Option<usize>;

/// The display width of `c` in columns, per `unicode_width::UnicodeWidthChar::width`.
///
/// The contract states what that function's source shows: printable ASCII
/// (U+0020..U+007E) is one column, the C0 and C1 control ranges have no
/// width, and no character is wider than three columns.  Which width the
/// tables give any other character is left to the name `unicode_char_width`.
#[verifier::external_body]
fn unicode_width_of(c: char) -> (r: Option<usize>)
    ensures
        r == unicode_char_width(c),
        r matches Some(w) ==> w <= 3,
        ' ' <= c <= '~' ==> r == Some(1usize),
        (c < ' ' || ('\u{7f}' <= c && c < '\u{a0}')) ==> r is None,
{
    UnicodeWidthChar::width(c)
}

/// The number of columns a character occupies: its Unicode width, or one
/// column where it has none.
pub open spec fn char_width(c: char) -> int {
    match unicode_char_width(c) {
        Some(w) => w as int,
        None => 1,
    }
}

/// The total width in columns of a sequence of characters.
pub open spec fn chars_width(s: Seq<char>) -> int
    decreases s.len(),
{
    if s.len() == 0 {
        0
    } else {
        chars_width(s.drop_last()) + char_width(s.last())
    }
}

/// The width of `ch` in terminal columns.
pub fn char_cols(ch: char) -> (r: TermScalar)
    ensures
        r == TermScalar::Finite(char_width(ch) as i64),
        0 <= char_width(ch) <= 3,
        (' ' <= ch <= '~') ==> char_width(ch) == 1,
{
    let w = match unicode_width_of(ch) {
        Some(w) => w,
        None => 1,
    };
    TermScalar::Finite(w as i64)
}

/// The chars of a string slice, in order.
pub fn chars_of(s: &str) -> (r: Vec<char>)
    ensures
        r@ == s@,
{
    let n = s.unicode_len();
    let mut out: Vec<char> = Vec::new();
    let mut i: usize = 0;
    while i < n
        invariant
            n == s@.len(),
            i <= n,
            out@ == s@.subrange(0, i as int),
        decreases n - i,
    {
        let c = s.get_char(i);
        out.push(c);
        i = i + 1;
        assert(out@ =~= s@.subrange(0, i as int));
    }
    assert(out@ =~= s@);
    out
}

/// Append one char to a `String` (`String::push`).
#[verifier::external_body]
pub(crate) fn push_char(s: &mut String, c: char)
    ensures
        final(s)@ == old(s)@.push(c),
{
    s.push(c);
}

/// A `String` holding the given chars.
pub fn string_from_chars(v: &Vec<char>) -> (r: String)
    ensures
        r@ == v@,
{
    let mut out = String::new();
    let mut i: usize = 0;
    while i < v.len()
        invariant
            i <= v.len(),
            out@ == v@.subrange(0, i as int),
        decreases v.len() - i,
    {
        push_char(&mut out, v[i]);
        i = i + 1;
        assert(out@ =~= v@.subrange(0, i as int));
    }
    assert(out@ =~= v@);
    out
}

/// Whether the total width of a text fits an `i32`.  A text of at most
/// 2^28 characters always fits, each character being at most three columns
/// wide; the second disjunct says so for callers that know only the length.
pub open spec fn width_fits(s: Seq<char>) -> bool {
    chars_width(s) <= i32::MAX || s.len() <= 0x1000_0000
}

/// A prefix is no wider than the whole, and no width is negative.
pub proof fn lemma_chars_width_prefix(s: Seq<char>, i: int)
    requires
        0 <= i <= s.len(),
    ensures
        0 <= chars_width(s.subrange(0, i)) <= chars_width(s),
    decreases s.len(),
{
    if i < s.len() {
        lemma_chars_width_prefix(s.drop_last(), i);
        assert(s.drop_last().subrange(0, i) =~= s.subrange(0, i));
    } else if s.len() > 0 {
        lemma_chars_width_prefix(s.drop_last(), i - 1);
        assert(s.drop_last().subrange(0, i - 1) =~= s.drop_last());
        assert(s.subrange(0, i) =~= s);
    } else {
        assert(s.subrange(0, i) =~= s);
    }
}

/// Whether the total width of a text fits an `i32`: the test that
/// [`width_fits`] asks of a text of unknown length.
pub fn text_width_fits(text: &str) -> (r: bool)
    ensures
        r == (chars_width(text@) <= i32::MAX),
{
    let chars = chars_of(text);
    let mut total: i64 = 0;
    let mut i: usize = 0;
    while i < chars.len()
        invariant
            chars@ == text@,
            i <= chars.len(),
            total as int == chars_width(chars@.subrange(0, i as int)),
            0 <= total <= i32::MAX,
        decreases chars.len() - i,
    {
        let w = char_cols(chars[i]);
        let wv = match w {
            TermScalar::Finite(v) => v,
            _ => 0,
        };
        assert(chars@.subrange(0, i + 1).drop_last() =~= chars@.subrange(0, i as int));
        total = total + wv;
        i = i + 1;
        if total > i32::MAX as i64 {
            proof {
                lemma_chars_width_prefix(chars@, i as int);
            }
            return false;
        }
    }
    assert(chars@.subrange(0, chars.len() as int) =~= chars@);
    true
}

/// The total display width of a text in terminal columns.  The total must
/// fit an `i32` (see [`width_fits`]).
pub fn text_cols(text: &str) -> (r: TermScalar)
    requires
        width_fits(text@),
    ensures
        r == TermScalar::Finite(chars_width(text@) as i64),
        0 <= chars_width(text@) <= 3 * text@.len(),
        chars_width(text@) <= i32::MAX,
{
    let chars = chars_of(text);
    let mut total: i64 = 0;
    let mut i: usize = 0;
    while i < chars.len()
        invariant
            chars@ == text@,
            i <= chars.len(),
            width_fits(chars@),
            total as int == chars_width(chars@.subrange(0, i as int)),
            0 <= total <= 3 * i,
            total <= i32::MAX,
        decreases chars.len() - i,
    {
        let w = char_cols(chars[i]);
        let wv = match w {
            TermScalar::Finite(v) => v,
            _ => 0,
        };
        assert(chars@.subrange(0, i + 1).drop_last() =~= chars@.subrange(0, i as int));
        proof {
            lemma_chars_width_prefix(chars@, i + 1);
        }
        total = total + wv;
        i = i + 1;
    }
    assert(chars@.subrange(0, chars.len() as int) =~= chars@);
    TermScalar::Finite(total)
}

/// Whether the chars are exactly `expected`.
pub fn chars_are(v: &Vec<char>, expected: &[char]) -> (r: bool)
    ensures
        r == (v@ == expected@),
{
    if v.len() != expected.len() {
        return false;
    }
    let mut i: usize = 0;
    while i < v.len()
        invariant
            i <= v@.len(),
            v@.len() == expected@.len(),
            forall|j: int| 0 <= j < i ==> v@[j] == expected@[j],
        decreases v@.len() - i,
    {
        if v[i] != expected[i] {
            return false;
        }
        i = i + 1;
    }
    assert(v@ =~= expected@);
    true
}

} // verus!
