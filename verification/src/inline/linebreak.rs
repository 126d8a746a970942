//! Line-break opportunities and line trimming.

use vstd::prelude::*;

verus! {

// ── Characters ───────────────────────────────────────────────────────────

/// Whether `c` has the Unicode `White_Space` property, per
/// `char::is_whitespace`.
pub uninterp spec fn white_space(c: char) -> bool;

/// Whether `c` has the Unicode `Alphabetic` property, per
/// `char::is_alphabetic`.
pub uninterp spec fn alphabetic(c: char) -> bool;

/// Whether `c` is in a Unicode numeric category (`Nd`, `Nl`, `No`), per
/// `char::is_numeric`.
pub uninterp spec fn numeric(c: char) -> bool;

/// `char::is_whitespace`: the contract names its result `white_space(c)`
/// and claims nothing more of it.
#[verifier::external_body]
fn is_whitespace(c: char) -> (r: bool)
    ensures
        r == white_space(c),
{
    c.is_whitespace()
}

/// `char::is_alphabetic`: the contract names its result `alphabetic(c)`
/// and claims nothing more of it.
#[verifier::external_body]
fn is_alphabetic(c: char) -> (r: bool)
    ensures
        r == alphabetic(c),
{
    c.is_alphabetic()
}

/// `char::is_numeric`: the contract names its result `numeric(c)` and
/// claims nothing more of it.
#[verifier::external_body]
fn is_numeric(c: char) -> (r: bool)
    ensures
        r == numeric(c),
{
    c.is_numeric()
}

/// The number of bytes `c` takes in UTF-8.
pub open spec fn utf8_len(c: char) -> nat {
    if (c as u32) < 0x80 {
        1
    } else if (c as u32) < 0x800 {
        2
    } else if (c as u32) < 0x10000 {
        3
    } else {
        4
    }
}

/// The number of bytes `s` takes in UTF-8.
pub open spec fn utf8_bytes(s: Seq<char>) -> nat
    decreases s.len(),
{
    if s.len() == 0 {
        0
    } else {
        utf8_bytes(s.drop_last()) + utf8_len(s.last())
    }
}

/// The number of bytes `c` takes in UTF-8.
pub fn char_len_utf8(c: char) -> (r: usize)
    ensures
        r == utf8_len(c),
{
    let v = c as u32;
    if v < 0x80 {
        1
    } else if v < 0x800 {
        2
    } else if v < 0x10000 {
        3
    } else {
        4
    }
}

/// Zero width space.
pub open spec fn zws() -> char {
    '\u{200B}'
}

/// Whether `c` is trimmed from the end of a line before a normal break:
/// whitespace or a zero width space.
pub open spec fn normal_trimmed(c: char) -> bool {
    white_space(c) || c == zws()
}

/// Whether `c` is in one of the Unicode line-break classes of a mandatory
/// break: `BK` (U+000B, U+000C, U+2028, U+2029), `CR` (U+000D), `LF`
/// (U+000A) or `NL` (U+0085).
pub open spec fn mandatory_break_char(c: char) -> bool {
    c == '\u{000B}' || c == '\u{000C}' || c == '\u{2028}' || c == '\u{2029}' || c == '\r' || c
        == '\n' || c == '\u{0085}'
}

/// The number of chars of `s` left after trimming the trailing chars that
/// `normal_trimmed` (with `normal`) or `mandatory_break_char` (otherwise)
/// picks.
pub open spec fn trim_end_count(s: Seq<char>, normal: bool) -> nat
    decreases s.len(),
{
    if s.len() == 0 {
        0
    } else if (if normal {
        normal_trimmed(s.last())
    } else {
        mandatory_break_char(s.last())
    }) {
        trim_end_count(s.drop_last(), normal)
    } else {
        s.len()
    }
}

// ── Breakpoints and trimming ─────────────────────────────────────────────

/// A line break opportunity.
#[derive(Clone, Copy, PartialEq, Eq, Structural, Debug, Hash)]
pub enum Breakpoint {
    /// Just a normal opportunity (e.g. after a space).
    Normal,
    /// A mandatory breakpoint (after '\n' or at the end of the text).
    Mandatory,
    /// An opportunity for hyphenating and how many chars are before/after it
    /// in the word.
    Hyphen(u8, u8),
}

/// How to trim the end of a line.
///
/// It's an invariant that `self.layout <= self.shaping`.
#[derive(Clone, Copy, PartialEq, Eq, Structural, Debug, Hash)]
pub struct Trim {
    /// The text in the range `layout..shaping` should be shaped but should not
    /// affect layout.
    pub layout: usize,
    /// The text should only be shaped up until the given text offset.
    pub shaping: usize,
}

impl Trim {
    /// An instance with equal layout and shaping trim.
    pub fn uniform(trim: usize) -> (r: Trim)
        ensures
            r.layout == trim,
            r.shaping == trim,
    {
        Trim { layout: trim, shaping: trim }
    }
}

/// The byte length of the first `n` chars of `s`.
fn prefix_bytes(s: &Vec<char>, n: usize) -> (r: usize)
    requires
        n <= s@.len(),
        utf8_bytes(s@) <= usize::MAX,
    ensures
        r == utf8_bytes(s@.subrange(0, n as int)),
{
    let mut b: usize = 0;
    let mut i: usize = 0;
    while i < n
        invariant
            i <= n <= s@.len(),
            utf8_bytes(s@) <= usize::MAX,
            b == utf8_bytes(s@.subrange(0, i as int)),
        decreases n - i,
    {
        proof {
            assert(s@.subrange(0, i + 1).drop_last() =~= s@.subrange(0, i as int));
            lemma_utf8_bytes_prefix(s@, i as int + 1);
        }
        b = b + char_len_utf8(s[i]);
        i = i + 1;
    }
    b
}

/// The bytes of a prefix are no more than the bytes of the whole.
pub proof fn lemma_utf8_bytes_prefix(s: Seq<char>, n: int)
    requires
        0 <= n <= s.len(),
    ensures
        utf8_bytes(s.subrange(0, n)) <= utf8_bytes(s),
    decreases s.len() - n,
{
    if n < s.len() {
        lemma_utf8_bytes_prefix(s, n + 1);
        assert(s.subrange(0, n + 1).drop_last() =~= s.subrange(0, n));
    } else {
        assert(s.subrange(0, n) =~= s);
    }
}

/// The number of chars left after trimming the end of `s`.
fn trim_end(s: &Vec<char>, normal: bool) -> (r: usize)
    ensures
        r == trim_end_count(s@, normal),
        r <= s@.len(),
{
    let mut n = s.len();
    assert(s@.subrange(0, n as int) =~= s@);
    while n > 0
        invariant
            n <= s@.len(),
            trim_end_count(s@.subrange(0, n as int), normal) == trim_end_count(s@, normal),
        decreases n,
    {
        let c = s[n - 1];
        let trimmed = if normal {
            is_whitespace(c) || c == '\u{200B}'
        } else {
            c == '\u{000B}' || c == '\u{000C}' || c == '\u{2028}' || c == '\u{2029}' || c == '\r'
                || c == '\n' || c == '\u{0085}'
        };
        proof {
            assert(s@.subrange(0, n as int).drop_last() =~= s@.subrange(0, n - 1));
        }
        if !trimmed {
            return n;
        }
        n = n - 1;
    }
    proof {
        assert(s@.subrange(0, 0) =~= Seq::<char>::empty());
    }
    0
}

/// The trim of a line `line` starting at byte `start`, before a breakpoint
/// of kind `bp` (all offsets in bytes).
pub open spec fn trim_spec(bp: Breakpoint, start: int, line: Seq<char>) -> (int, int) {
    match bp {
        Breakpoint::Normal => (
            start + utf8_bytes(line.subrange(0, trim_end_count(line, true) as int)),
            start + utf8_bytes(line),
        ),
        Breakpoint::Mandatory => {
            let t = start + utf8_bytes(line.subrange(0, trim_end_count(line, false) as int));
            (t, t)
        },
        Breakpoint::Hyphen(..) => (start + utf8_bytes(line), start + utf8_bytes(line)),
    }
}

impl Breakpoint {
    /// Whether this is a hyphen breakpoint.
    pub fn is_hyphen(self) -> (r: bool)
        ensures
            r == (self is Hyphen),
    {
        match self {
            Breakpoint::Hyphen(..) => true,
            _ => false,
        }
    }

    /// Trim a line before this breakpoint.  Before a normal break, trailing
    /// whitespace and zero width spaces are shaped but do not count for
    /// layout; before a mandatory break, trailing break characters are cut
    /// off; before a hyphen, nothing is trimmed.  The layout trim never
    /// lies after the shaping trim.
    pub fn trim(self, start: usize, line: &str) -> (r: Trim)
        requires
            start + utf8_bytes(line@) <= usize::MAX,
        ensures
            (r.layout as int, r.shaping as int) == trim_spec(self, start as int, line@),
            r.layout <= r.shaping,
    {
        let cs = crate::text::chars_of(line);
        proof {
            lemma_utf8_bytes_prefix(cs@, cs@.len() as int);
            assert(cs@.subrange(0, cs@.len() as int) =~= cs@);
        }
        let all = prefix_bytes(&cs, cs.len());
        match self {
            Breakpoint::Normal => {
                let n = trim_end(&cs, true);
                let kept = prefix_bytes(&cs, n);
                proof {
                    lemma_utf8_bytes_prefix(cs@, n as int);
                }
                Trim { layout: start + kept, shaping: start + all }
            },
            Breakpoint::Mandatory => {
                let n = trim_end(&cs, false);
                let kept = prefix_bytes(&cs, n);
                proof {
                    lemma_utf8_bytes_prefix(cs@, n as int);
                }
                Trim::uniform(start + kept)
            },
            Breakpoint::Hyphen(..) => Trim::uniform(start + all),
        }
    }
}

// ── Links ────────────────────────────────────────────────────────────────

/// The class of a character of a link, for finding break opportunities.
#[derive(Clone, Copy, PartialEq, Eq, Structural, Debug, Hash)]
pub enum LinkClass {
    /// A letter.
    Alphabetic,
    /// A digit.
    Digit,
    /// An opening parenthesis or bracket.
    Open,
    /// Anything else.
    Other,
}

/// The link class of a character.
pub open spec fn link_class_spec(c: char) -> LinkClass {
    if alphabetic(c) {
        LinkClass::Alphabetic
    } else if numeric(c) {
        LinkClass::Digit
    } else if c == '(' || c == '[' {
        LinkClass::Open
    } else {
        LinkClass::Other
    }
}

/// The link class of a character.
pub fn link_class_of(c: char) -> (r: LinkClass)
    ensures
        r == link_class_spec(c),
{
    if is_alphabetic(c) {
        LinkClass::Alphabetic
    } else if is_numeric(c) {
        LinkClass::Digit
    } else if c == '(' || c == '[' {
        LinkClass::Open
    } else {
        LinkClass::Other
    }
}

/// The state of scanning a link: the char index of the last break, the
/// class of the previous char, and the break offsets found so far.
pub type LinkScan = (int, LinkClass, Seq<usize>);

/// Whether there is a break opportunity before a char of class `class`
/// after one of class `prev`: not after an opening bracket, and otherwise
/// between two "other" chars or where the class changes.
pub open spec fn link_breaks(prev: LinkClass, class: LinkClass) -> bool {
    prev != LinkClass::Open && if class == LinkClass::Other {
        prev == LinkClass::Other
    } else {
        class != prev
    }
}

/// The scan of a link after its first `n` chars.  At a break before char
/// `i` (not the first), the piece since the last break is a single
/// opportunity at its end when shorter than 16 bytes, and otherwise an
/// opportunity after each of its chars.
pub open spec fn link_scan(s: Seq<char>, n: int) -> LinkScan
    decreases n,
{
    if n <= 0 {
        (0, LinkClass::Other, Seq::empty())
    } else {
        let st = link_scan(s, n - 1);
        let i = n - 1;
        let class = link_class_spec(s[i]);
        let end = utf8_bytes(s.subrange(0, i));
        if i > 0 && link_breaks(st.1, class) {
            if end - utf8_bytes(s.subrange(0, st.0)) < 16 {
                (i, class, st.2.push(end as usize))
            } else {
                (
                    i,
                    class,
                    st.2 + Seq::new(
                        (i - st.0) as nat,
                        |k: int| utf8_bytes(s.subrange(0, st.0 + k + 1)) as usize,
                    ),
                )
            }
        } else {
            (st.0, class, st.2)
        }
    }
}

/// Line-break opportunities for a link, as byte offsets in the link: where
/// letters, digits and other characters meet (but not after an opening
/// parenthesis or bracket), and between two other characters; a piece of
/// 16 bytes or more may break after any of its characters.
pub fn linebreak_link(link: &str) -> (r: Vec<usize>)
    requires
        utf8_bytes(link@) <= usize::MAX,
    ensures
        r@ == link_scan(link@, link@.len() as int).2,
{
    let cs = crate::text::chars_of(link);
    let n = cs.len();
    let mut out: Vec<usize> = Vec::new();
    let mut offset_idx: usize = 0;
    let mut offset: usize = 0;
    let mut prev = LinkClass::Other;
    let mut end: usize = 0;
    let mut i: usize = 0;
    while i < n
        invariant
            n == cs@.len(),
            cs@ == link@,
            i <= n,
            utf8_bytes(cs@) <= usize::MAX,
            offset_idx <= i,
            offset == utf8_bytes(cs@.subrange(0, offset_idx as int)),
            end == utf8_bytes(cs@.subrange(0, i as int)),
            link_scan(cs@, i as int) == (offset_idx as int, prev, out@),
        decreases n - i,
    {
        proof {
            lemma_utf8_bytes_prefix(cs@, i as int + 1);
            assert(cs@.subrange(0, i + 1).drop_last() =~= cs@.subrange(0, i as int));
            lemma_utf8_bytes_monotone(cs@, offset_idx as int, i as int);
        }
        let c = cs[i];
        let class = link_class_of(c);
        if i > 0 && prev != LinkClass::Open && (if class == LinkClass::Other {
            prev == LinkClass::Other
        } else {
            class != prev
        }) {
            if end - offset < 16 {
                offset = end;
                offset_idx = i;
                out.push(offset);
            } else {
                let ghost start_idx = offset_idx as int;
                let ghost out0 = out@;
                let mut j = offset_idx;
                while j < i
                    invariant
                        start_idx <= j <= i < n,
                        n == cs@.len(),
                        utf8_bytes(cs@) <= usize::MAX,
                        offset == utf8_bytes(cs@.subrange(0, j as int)),
                        out@ == out0 + Seq::new(
                            (j - start_idx) as nat,
                            |k: int| utf8_bytes(cs@.subrange(0, start_idx + k + 1)) as usize,
                        ),
                    decreases i - j,
                {
                    proof {
                        lemma_utf8_bytes_prefix(cs@, j as int + 1);
                        assert(cs@.subrange(0, j + 1).drop_last() =~= cs@.subrange(0, j as int));
                    }
                    offset = offset + char_len_utf8(cs[j]);
                    out.push(offset);
                    j = j + 1;
                    proof {
                        assert(out@ =~= out0 + Seq::new(
                            (j - start_idx) as nat,
                            |k: int| utf8_bytes(cs@.subrange(0, start_idx + k + 1)) as usize,
                        ));
                    }
                }
                offset_idx = i;
            }
        }
        prev = class;
        end = end + char_len_utf8(c);
        i = i + 1;
    }
    out
}

/// The bytes of a shorter prefix are no more than those of a longer one.
proof fn lemma_utf8_bytes_monotone(s: Seq<char>, a: int, b: int)
    requires
        0 <= a <= b <= s.len(),
    ensures
        utf8_bytes(s.subrange(0, a)) <= utf8_bytes(s.subrange(0, b)),
{
    lemma_utf8_bytes_prefix(s.subrange(0, b), a);
    assert(s.subrange(0, b).subrange(0, a) =~= s.subrange(0, a));
}

// ── Cumulative metrics ───────────────────────────────────────────────────

/// An accumulative array of a metric over the bytes of a text: the running
/// total of the metric, and the total reached at each byte position.
pub struct CumulativeVec {
    /// The total of all metrics pushed so far.
    pub total: i64,
    /// The running total at each byte position.
    pub summed: Vec<i64>,
}

impl CumulativeVec {
    /// A new instance whose first position holds zero.
    pub fn with_capacity(capacity: usize) -> (r: CumulativeVec)
        ensures
            r.total == 0,
            r.summed@ == seq![0i64],
            r.monotone(),
    {
        let mut summed: Vec<i64> = Vec::new();
        summed.push(0);
        assert(summed@ =~= seq![0i64]);
        CumulativeVec { total: 0, summed }
    }

    /// Adjust to cover `len` byte positions: cut off the positions past
    /// `len`, or fill up to it with the total.
    pub fn adjust(&mut self, len: usize)
        ensures
            final(self).total == old(self).total,
            final(self).summed@ == (if len <= old(self).summed@.len() {
                old(self).summed@.subrange(0, len as int)
            } else {
                old(self).summed@ + Seq::new(
                    (len - old(self).summed@.len()) as nat,
                    |_i: int| old(self).total,
                )
            }),
    {
        if len <= self.summed.len() {
            self.summed.truncate(len);
        } else {
            let ghost start = self.summed@;
            let n = len - self.summed.len();
            let mut i: usize = 0;
            while i < n
                invariant
                    i <= n,
                    n == len - start.len(),
                    self.total == old(self).total,
                    start == old(self).summed@,
                    self.summed@ == start + Seq::new(i as nat, |_i: int| self.total),
                decreases n - i,
            {
                self.summed.push(self.total);
                i = i + 1;
                assert(self.summed@ =~= start + Seq::new(i as nat, |_i: int| self.total));
            }
        }
    }

    /// Add a segment of `byte_len` bytes with the given metric: the total
    /// grows by the metric and each of the segment's positions holds the
    /// new total.
    pub fn push(&mut self, byte_len: usize, metric: i64)
        requires
            i64::MIN <= old(self).total + metric <= i64::MAX,
        ensures
            final(self).total == old(self).total + metric,
            final(self).summed@ == old(self).summed@ + Seq::new(
                byte_len as nat,
                |_i: int| final(self).total,
            ),
    {
        self.total = self.total + metric;
        let ghost start = self.summed@;
        let mut i: usize = 0;
        while i < byte_len
            invariant
                i <= byte_len,
                self.total == old(self).total + metric,
                start == old(self).summed@,
                self.summed@ == start + Seq::new(i as nat, |_i: int| self.total),
            decreases byte_len - i,
        {
            self.summed.push(self.total);
            i = i + 1;
            assert(self.summed@ =~= start + Seq::new(i as nat, |_i: int| self.total));
        }
    }

    /// The metric at byte position `index`: zero at position 0, otherwise
    /// the running total held for the position before it.
    pub open spec fn get_spec(&self, index: int) -> i64 {
        if index == 0 {
            0
        } else {
            self.summed@[index - 1]
        }
    }

    /// The metric at byte position `index`.
    pub fn get(&self, index: usize) -> (r: i64)
        requires
            index <= self.summed@.len(),
        ensures
            r == self.get_spec(index as int),
    {
        if index == 0 {
            0
        } else {
            self.summed[index - 1]
        }
    }

    /// The metric of the line spanned by `range`: the metric at its end
    /// less the metric at its start.
    pub fn estimate(&self, range: std::ops::Range<usize>) -> (r: i64)
        requires
            range.start <= self.summed@.len(),
            range.end <= self.summed@.len(),
            i64::MIN <= self.get_spec(range.end as int) - self.get_spec(range.start as int) <= i64::MAX,
        ensures
            r == self.get_spec(range.end as int) - self.get_spec(range.start as int),
    {
        self.get(range.end) - self.get(range.start)
    }

    /// Whether the running totals never decrease and never pass the total.
    pub open spec fn monotone(&self) -> bool {
        &&& forall|i: int, j: int|
            0 <= i <= j < self.summed@.len() ==> #[trigger] self.summed@[i] <= #[trigger] self.summed@[j]
        &&& forall|i: int|
            0 <= i < self.summed@.len() ==> 0 <= #[trigger] self.summed@[i] <= self.total
        &&& self.total >= 0
    }
}

/// With metrics that are never negative the running totals never
/// decrease and never go below zero: a fresh instance is so, pushing a nonnegative metric and
/// adjusting keep it so, and then the estimate of any forward range is
/// nonnegative.
pub proof fn law_cumulative_monotone(
    c: CumulativeVec,
    metric: i64,
    byte_len: usize,
    len: usize,
    pushed: CumulativeVec,
    adjusted: CumulativeVec,
    a: int,
    b: int,
)
    requires
        c.monotone(),
        metric >= 0,
        c.total + metric <= i64::MAX,
        pushed.total == c.total + metric,
        pushed.summed@ == c.summed@ + Seq::new(byte_len as nat, |_i: int| pushed.total),
        adjusted.total == c.total,
        adjusted.summed@ == (if len <= c.summed@.len() {
            c.summed@.subrange(0, len as int)
        } else {
            c.summed@ + Seq::new((len - c.summed@.len()) as nat, |_i: int| c.total)
        }),
        0 <= a <= b <= c.summed@.len(),
    ensures
        pushed.monotone(),
        adjusted.monotone(),
        c.get_spec(a) <= c.get_spec(b),
{
    assert forall|i: int, j: int|
        0 <= i <= j < pushed.summed@.len() implies #[trigger] pushed.summed@[i] <= #[trigger] pushed.summed@[j] by {
        if j >= c.summed@.len() && i < c.summed@.len() {
            assert(pushed.summed@[i] == c.summed@[i]);
        } else if j < c.summed@.len() {
            assert(pushed.summed@[i] == c.summed@[i] && pushed.summed@[j] == c.summed@[j]);
        }
    }
    assert forall|i: int| 0 <= i < pushed.summed@.len() implies 0 <= #[trigger] pushed.summed@[i] <= pushed.total by {
        if i < c.summed@.len() {
            assert(pushed.summed@[i] == c.summed@[i]);
        }
    }
    assert forall|i: int, j: int|
        0 <= i <= j < adjusted.summed@.len() implies #[trigger] adjusted.summed@[i] <= #[trigger] adjusted.summed@[j] by {
        if j < c.summed@.len() {
            assert(adjusted.summed@[i] == c.summed@[i] && adjusted.summed@[j] == c.summed@[j]);
        } else if i < c.summed@.len() {
            assert(adjusted.summed@[i] == c.summed@[i]);
        }
    }
    assert forall|i: int| 0 <= i < adjusted.summed@.len() implies 0 <= #[trigger] adjusted.summed@[i] <= adjusted.total by {
        if i < c.summed@.len() {
            assert(adjusted.summed@[i] == c.summed@[i]);
        }
    }
    if a > 0 {
        assert(c.summed@[a - 1] <= c.summed@[b - 1]);
    } else if b > 0 {
        assert(0 <= c.summed@[b - 1]);
    }
}

} // verus!
