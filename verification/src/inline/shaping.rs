//! Character classes for shaping and justification.

use vstd::prelude::*;
use crate::text::{chars_are, chars_of};
use unicode_script::UnicodeScript;

verus! {

/// The numeric value of the `unicode_script::Script` that the crate's
/// tables give `c`.
pub uninterp spec fn unicode_script_code(c: char) -> u8;

/// `unicode_script::UnicodeScript::script` on a char, read as the numeric
/// value of the `Script` it returns (the enum is `#[repr(u8)]`).  The
/// contract names the result `unicode_script_code(c)` and claims nothing
/// more of it.
#[verifier::external_body]
fn script_code(c: char) -> (r: u8)
    ensures
        r == unicode_script_code(c),
{
    UnicodeScript::script(&c) as u8
}

/// The numeric value of `Script::Han`.
pub const SCRIPT_HAN: u8 = 50;

/// The numeric value of `Script::Hiragana`.
pub const SCRIPT_HIRAGANA: u8 = 54;

/// The numeric value of `Script::Katakana`.
pub const SCRIPT_KATAKANA: u8 = 63;

/// The numeric value of `Script::Cyrillic`.
pub const SCRIPT_CYRILLIC: u8 = 28;

/// The numeric value of `Script::Greek`.
pub const SCRIPT_GREEK: u8 = 45;

/// The numeric value of `Script::Latin`.
pub const SCRIPT_LATIN: u8 = 74;

/// The punctuation style of CJK text.
#[derive(Clone, Copy, PartialEq, Eq, Structural, Debug, Hash)]
pub enum CjkPunctStyle {
    /// Standard GB/T 15834-2011, used mostly in mainland China.
    Gb,
    /// Standard by Taiwan Ministry of Education, used in Taiwan and Hong Kong.
    Cns,
    /// Standard JIS X 4051, used in Japan.
    Jis,
}

/// Whether `c` is a space for justification: a space, a no-break space or
/// an ideographic space.
pub open spec fn is_space_spec(c: char) -> bool {
    c == ' ' || c == '\u{00A0}' || c == '\u{3000}'
}

/// Whether `c` is a space for justification.
pub fn is_space(c: char) -> (r: bool)
    ensures
        r == is_space_spec(c),
{
    c == ' ' || c == '\u{00A0}' || c == '\u{3000}'
}

/// Whether a char of the script `script` is Chinese or Japanese: of the
/// Hiragana, Katakana or Han script, or the prolonged sound mark.
pub open spec fn is_cj_script_spec(c: char, script: u8) -> bool {
    script == SCRIPT_HIRAGANA || script == SCRIPT_KATAKANA || script == SCRIPT_HAN || c == '\u{30FC}'
}

/// Whether `c`, of the script `script`, is Chinese or Japanese.
pub fn is_cj_script(c: char, script: u8) -> (r: bool)
    ensures
        r == is_cj_script_spec(c, script),
{
    script == SCRIPT_HIRAGANA || script == SCRIPT_KATAKANA || script == SCRIPT_HAN || c == '\u{30FC}'
}

/// Whether `c` is Chinese or Japanese, by its Unicode script.
pub fn is_of_cj_script(c: char) -> (r: bool)
    ensures
        r == is_cj_script_spec(c, unicode_script_code(c)),
{
    is_cj_script(c, script_code(c))
}

/// Whether `c` is punctuation centred in its square in the given style:
/// the full-width comma, full stop and colons in the CNS style, and the
/// katakana middle dot and middle dot in all styles.
pub open spec fn is_cjk_center_punct_spec(c: char, style: CjkPunctStyle) -> bool {
    (style == CjkPunctStyle::Cns && (c == '\u{FF0C}' || c == '\u{3002}' || c == '\u{FF0E}' || c
        == '\u{3001}' || c == '\u{FF1A}' || c == '\u{FF1B}')) || c == '\u{30FB}' || c == '\u{00B7}'
}

/// Whether `c` is CJK punctuation centred in its square in the given style.
pub fn is_cjk_center_aligned_punctuation(c: char, style: CjkPunctStyle) -> (r: bool)
    ensures
        r == is_cjk_center_punct_spec(c, style),
{
    if style == CjkPunctStyle::Cns && (c == '\u{FF0C}' || c == '\u{3002}' || c == '\u{FF0E}' || c
        == '\u{3001}' || c == '\u{FF1A}' || c == '\u{FF1B}') {
        return true;
    }
    c == '\u{30FB}' || c == '\u{00B7}'
}


/// Whether `c` is punctuation set to the left of its square in the given
/// style.  `fills_em` says whether the glyph's advance and its stretch at
/// the end make up exactly one em, which makes the closing quotes count.
pub open spec fn is_cjk_left_punct_spec(c: char, fills_em: bool, style: CjkPunctStyle) -> bool {
    ||| ((c == '\u{201D}' || c == '\u{2019}') && fills_em)
    ||| ((style == CjkPunctStyle::Gb || style == CjkPunctStyle::Jis) && (c == '\u{FF0C}' || c
        == '\u{3002}' || c == '\u{FF0E}' || c == '\u{3001}' || c == '\u{FF1A}' || c == '\u{FF1B}'))
    ||| (style == CjkPunctStyle::Gb && (c == '\u{FF1F}' || c == '\u{FF01}'))
    ||| (c == '\u{300B}' || c == '\u{FF09}' || c == '\u{300F}' || c == '\u{300D}' || c == '\u{3011}'
        || c == '\u{3017}' || c == '\u{3015}' || c == '\u{3009}' || c == '\u{FF3D}' || c == '\u{FF5D}')
}

/// Whether `c` is CJK punctuation set to the left of its square (see
/// [`is_cjk_left_punct_spec`]).
pub fn is_cjk_left_aligned_punctuation(c: char, fills_em: bool, style: CjkPunctStyle) -> (r: bool)
    ensures
        r == is_cjk_left_punct_spec(c, fills_em, style),
{
    if (c == '\u{201D}' || c == '\u{2019}') && fills_em {
        return true;
    }
    if (style == CjkPunctStyle::Gb || style == CjkPunctStyle::Jis) && (c == '\u{FF0C}' || c
        == '\u{3002}' || c == '\u{FF0E}' || c == '\u{3001}' || c == '\u{FF1A}' || c == '\u{FF1B}') {
        return true;
    }
    if style == CjkPunctStyle::Gb && (c == '\u{FF1F}' || c == '\u{FF01}') {
        return true;
    }
    c == '\u{300B}' || c == '\u{FF09}' || c == '\u{300F}' || c == '\u{300D}' || c == '\u{3011}' || c
        == '\u{3017}' || c == '\u{3015}' || c == '\u{3009}' || c == '\u{FF3D}' || c == '\u{FF5D}'
}

/// Whether `c` is punctuation set to the right of its square.  `fills_em`
/// says whether the glyph's advance and its stretch at the start make up
/// exactly one em, which makes the opening quotes count.
pub open spec fn is_cjk_right_punct_spec(c: char, fills_em: bool) -> bool {
    ||| ((c == '\u{201C}' || c == '\u{2018}') && fills_em)
    ||| (c == '\u{300A}' || c == '\u{FF08}' || c == '\u{300E}' || c == '\u{300C}' || c == '\u{3010}'
        || c == '\u{3016}' || c == '\u{3014}' || c == '\u{3008}' || c == '\u{FF3B}' || c == '\u{FF5B}')
}

/// Whether `c` is CJK punctuation set to the right of its square (see
/// [`is_cjk_right_punct_spec`]).
pub fn is_cjk_right_aligned_punctuation(c: char, fills_em: bool) -> (r: bool)
    ensures
        r == is_cjk_right_punct_spec(c, fills_em),
{
    if (c == '\u{201C}' || c == '\u{2018}') && fills_em {
        return true;
    }
    c == '\u{300A}' || c == '\u{FF08}' || c == '\u{300E}' || c == '\u{300C}' || c == '\u{3010}' || c
        == '\u{3016}' || c == '\u{3014}' || c == '\u{3008}' || c == '\u{FF3B}' || c == '\u{FF5B}'
}

/// The punctuation style for a language and region, by their codes:
/// Chinese in Taiwan or Hong Kong follows CNS, Japanese follows JIS, and
/// everything else GB.
pub open spec fn cjk_punct_style_spec(lang: Seq<char>, region: Option<Seq<char>>) -> CjkPunctStyle {
    if lang == seq!['z', 'h'] && (region == Some(seq!['T', 'W']) || region == Some(seq!['H', 'K'])) {
        CjkPunctStyle::Cns
    } else if lang == seq!['j', 'a'] {
        CjkPunctStyle::Jis
    } else {
        CjkPunctStyle::Gb
    }
}

/// The punctuation style for a language and region (see
/// [`cjk_punct_style_spec`]).
pub fn cjk_punct_style(lang: &str, region: Option<&str>) -> (r: CjkPunctStyle)
    ensures
        r == cjk_punct_style_spec(
            lang@,
            match region {
                Some(x) => Some(x@),
                None => None,
            },
        ),
{
    let code = chars_of(lang);
    let zh: [char; 2] = ['z', 'h'];
    let ja: [char; 2] = ['j', 'a'];
    let tw: [char; 2] = ['T', 'W'];
    let hk: [char; 2] = ['H', 'K'];
    assert(zh@ == seq!['z', 'h']);
    assert(ja@ == seq!['j', 'a']);
    assert(tw@ == seq!['T', 'W']);
    assert(hk@ == seq!['H', 'K']);
    if chars_are(&code, &zh) {
        match region {
            Some(x) => {
                let rc = chars_of(x);
                if chars_are(&rc, &tw) || chars_are(&rc, &hk) {
                    return CjkPunctStyle::Cns;
                }
            },
            None => {},
        }
    }
    if chars_are(&code, &ja) {
        CjkPunctStyle::Jis
    } else {
        CjkPunctStyle::Gb
    }
}

/// Whether `c`, of the script `script`, counts as a letter or number for
/// spacing: of the Latin, Greek or Cyrillic script, one of `#$%&`, or an
/// ASCII digit.
pub open spec fn is_letter_or_number_spec(c: char, script: u8) -> bool {
    script == SCRIPT_LATIN || script == SCRIPT_GREEK || script == SCRIPT_CYRILLIC || c == '#' || c == '$'
        || c == '%' || c == '&' || ('0' <= c <= '9')
}

/// Whether `c` counts as a letter or number, by its Unicode script (see
/// [`is_letter_or_number_spec`]).
pub fn is_letter_or_number(c: char) -> (r: bool)
    ensures
        r == is_letter_or_number_spec(c, unicode_script_code(c)),
{
    let script = script_code(c);
    script == SCRIPT_LATIN || script == SCRIPT_GREEK || script == SCRIPT_CYRILLIC || c == '#' || c == '$'
        || c == '%' || c == '&' || ('0' <= c && c <= '9')
}

} // verus!
