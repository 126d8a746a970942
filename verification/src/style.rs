//! Cell styles and their ANSI escape sequences.

use vstd::prelude::*;

verus! {

/// A terminal color.
#[derive(Clone, Copy, PartialEq, Eq, Structural, Debug, Hash)]
pub enum TermColor {
    /// The terminal's default color.
    Reset,
    /// Black.
    Black,
    /// Dark grey.
    DarkGrey,
    /// Red.
    Red,
    /// Dark red.
    DarkRed,
    /// Green.
    Green,
    /// Dark green.
    DarkGreen,
    /// Yellow.
    Yellow,
    /// Dark yellow.
    DarkYellow,
    /// Blue.
    Blue,
    /// Dark blue.
    DarkBlue,
    /// Magenta.
    Magenta,
    /// Dark magenta.
    DarkMagenta,
    /// Cyan.
    Cyan,
    /// Dark cyan.
    DarkCyan,
    /// White.
    White,
    /// Grey.
    Grey,
    /// A 24-bit color.
    Rgb { r: u8, g: u8, b: u8 },
    /// A color from the 256-color palette.
    AnsiValue(u8),
}

/// The style of a terminal cell: colors and a set of attributes.
///
/// `attributes` is a bit set: each attribute owns one bit (see the `ATTR_*`
/// constants).
#[derive(Clone, Copy, PartialEq, Eq, Structural, Debug, Hash)]
pub struct TermStyle {
    /// Foreground color, if set.
    pub foreground_color: Option<TermColor>,
    /// Background color, if set.
    pub background_color: Option<TermColor>,
    /// Underline color, if set.
    pub underline_color: Option<TermColor>,
    /// Attribute bit set.
    pub attributes: u32,
}

/// Bold text.
pub const ATTR_BOLD: u32 = 4;
/// Dim text.
pub const ATTR_DIM: u32 = 8;
/// Italic text.
pub const ATTR_ITALIC: u32 = 16;
/// Underlined text.
pub const ATTR_UNDERLINED: u32 = 32;
/// Slowly blinking text.
pub const ATTR_SLOW_BLINK: u32 = 1024;
/// Rapidly blinking text.
pub const ATTR_RAPID_BLINK: u32 = 2048;
/// Foreground and background swapped.
pub const ATTR_REVERSE: u32 = 4096;
/// Hidden text.
pub const ATTR_HIDDEN: u32 = 8192;
/// Crossed-out text.
pub const ATTR_CROSSED_OUT: u32 = 16384;

impl TermStyle {
    /// The default style: no colors, no attributes.
    pub open spec fn default_spec() -> TermStyle {
        TermStyle {
            foreground_color: None,
            background_color: None,
            underline_color: None,
            attributes: 0,
        }
    }

    /// The default style: no colors, no attributes.
    pub fn plain() -> (r: TermStyle)
        ensures
            r == TermStyle::default_spec(),
    {
        TermStyle {
            foreground_color: None,
            background_color: None,
            underline_color: None,
            attributes: 0,
        }
    }

    /// Whether the attribute with bit `bit` is set.
    pub open spec fn has_spec(self, bit: u32) -> bool {
        self.attributes & bit != 0
    }

    /// Whether the attribute with bit `bit` is set.
    pub fn has(self, bit: u32) -> (r: bool)
        ensures
            r == self.has_spec(bit),
    {
        self.attributes & bit != 0
    }
}

impl Default for TermStyle {
    fn default() -> (r: TermStyle)
        ensures
            r == TermStyle::default_spec(),
    {
        TermStyle::plain()
    }
}

/// The SGR parameter that selects `color` as foreground (`is_fg`) or
/// background color, for the sixteen named colors and `Reset`; other colors
/// have none.
pub open spec fn color_code(is_fg: bool, color: TermColor) -> Option<u8> {
    let (f, b): (u8, u8) = match color {
        TermColor::Reset => (39, 49),
        TermColor::Black => (30, 40),
        TermColor::DarkGrey => (90, 100),
        TermColor::Red => (31, 41),
        TermColor::DarkRed => (91, 101),
        TermColor::Green => (32, 42),
        TermColor::DarkGreen => (92, 102),
        TermColor::Yellow => (33, 43),
        TermColor::DarkYellow => (93, 103),
        TermColor::Blue => (34, 44),
        TermColor::DarkBlue => (94, 104),
        TermColor::Magenta => (35, 45),
        TermColor::DarkMagenta => (95, 105),
        TermColor::Cyan => (36, 46),
        TermColor::DarkCyan => (96, 106),
        TermColor::White => (37, 47),
        TermColor::Grey => (97, 107),
        _ => (0, 0),
    };
    if f == 0 {
        None
    } else if is_fg {
        Some(f)
    } else {
        Some(b)
    }
}

/// The codes contributed by an optional color.
pub open spec fn opt_color_codes(is_fg: bool, color: Option<TermColor>) -> Seq<u8> {
    match color {
        Some(c) => match color_code(is_fg, c) {
            Some(n) => seq![n],
            None => seq![],
        },
        None => seq![],
    }
}

/// The code of an attribute if it is set.
pub open spec fn attr_code(style: TermStyle, bit: u32, code: u8) -> Seq<u8> {
    if style.has_spec(bit) {
        seq![code]
    } else {
        seq![]
    }
}

/// The SGR parameters of a style, in order: foreground, background, then
/// bold, dim, italic, underlined, slow blink, rapid blink, reverse, hidden,
/// crossed out.
pub open spec fn style_codes(style: TermStyle) -> Seq<u8> {
    opt_color_codes(true, style.foreground_color) + opt_color_codes(false, style.background_color)
        + attr_code(style, ATTR_BOLD, 1) + attr_code(style, ATTR_DIM, 2) + attr_code(
        style,
        ATTR_ITALIC,
        3,
    ) + attr_code(style, ATTR_UNDERLINED, 4) + attr_code(style, ATTR_SLOW_BLINK, 5) + attr_code(
        style,
        ATTR_RAPID_BLINK,
        6,
    ) + attr_code(style, ATTR_REVERSE, 7) + attr_code(style, ATTR_HIDDEN, 8) + attr_code(
        style,
        ATTR_CROSSED_OUT,
        9,
    )
}

/// The decimal digits of a byte.
pub open spec fn decimal(n: u8) -> Seq<char> {
    if n < 10 {
        seq![digit(n as int)]
    } else if n < 100 {
        seq![digit((n / 10) as int), digit((n % 10) as int)]
    } else {
        seq![digit((n / 100) as int), digit(((n / 10) % 10) as int), digit((n % 10) as int)]
    }
}

/// The decimal digit for `d` in `0..10`.
pub open spec fn digit(d: int) -> char {
    ((d + 48) as u32) as char
}

/// The codes written in decimal and separated by `;`.
pub open spec fn join_codes(codes: Seq<u8>) -> Seq<char>
    decreases codes.len(),
{
    if codes.len() == 0 {
        seq![]
    } else if codes.len() == 1 {
        decimal(codes[0])
    } else {
        join_codes(codes.drop_last()) + seq![';'] + decimal(codes.last())
    }
}

/// The escape sequence that selects a style: `ESC [ codes m`, or nothing
/// where the style has no codes.
pub open spec fn sgr_sequence(style: TermStyle) -> Seq<char> {
    let codes = style_codes(style);
    if codes.len() == 0 {
        seq![]
    } else {
        seq!['\u{1b}', '['] + join_codes(codes) + seq!['m']
    }
}

/// The escape sequence that resets all styling.
pub open spec fn reset_sequence() -> Seq<char> {
    seq!['\u{1b}', '[', '0', 'm']
}

fn digit_char(d: u8) -> (c: char)
    requires
        d < 10,
    ensures
        c == digit(d as int),
{
    match d {
        0 => '0',
        1 => '1',
        2 => '2',
        3 => '3',
        4 => '4',
        5 => '5',
        6 => '6',
        7 => '7',
        8 => '8',
        _ => '9',
    }
}

/// Append the decimal digits of `n`.
fn push_decimal(out: &mut Vec<char>, n: u8)
    ensures
        final(out)@ == old(out)@ + decimal(n),
{
    if n < 10 {
        out.push(digit_char(n));
    } else if n < 100 {
        out.push(digit_char(n / 10));
        out.push(digit_char(n % 10));
    } else {
        out.push(digit_char(n / 100));
        out.push(digit_char((n / 10) % 10));
        out.push(digit_char(n % 10));
    }
    assert(final(out)@ =~= old(out)@ + decimal(n));
}

/// Append the SGR code of a color, if it has one.
fn push_color(codes: &mut Vec<u8>, is_fg: bool, color: TermColor)
    ensures
        final(codes)@ == old(codes)@ + opt_color_codes(is_fg, Some(color)),
{
    let code: Option<(u8, u8)> = match color {
        TermColor::Reset => Some((39, 49)),
        TermColor::Black => Some((30, 40)),
        TermColor::DarkGrey => Some((90, 100)),
        TermColor::Red => Some((31, 41)),
        TermColor::DarkRed => Some((91, 101)),
        TermColor::Green => Some((32, 42)),
        TermColor::DarkGreen => Some((92, 102)),
        TermColor::Yellow => Some((33, 43)),
        TermColor::DarkYellow => Some((93, 103)),
        TermColor::Blue => Some((34, 44)),
        TermColor::DarkBlue => Some((94, 104)),
        TermColor::Magenta => Some((35, 45)),
        TermColor::DarkMagenta => Some((95, 105)),
        TermColor::Cyan => Some((36, 46)),
        TermColor::DarkCyan => Some((96, 106)),
        TermColor::White => Some((37, 47)),
        TermColor::Grey => Some((97, 107)),
        _ => None,
    };
    match code {
        Some((f, b)) => {
            if is_fg {
                codes.push(f);
            } else {
                codes.push(b);
            }
        },
        None => {},
    }
    assert(final(codes)@ =~= old(codes)@ + opt_color_codes(is_fg, Some(color)));
}

fn push_attr(codes: &mut Vec<u8>, style: TermStyle, bit: u32, code: u8)
    ensures
        final(codes)@ == old(codes)@ + attr_code(style, bit, code),
{
    if style.has(bit) {
        codes.push(code);
    }
    assert(final(codes)@ =~= old(codes)@ + attr_code(style, bit, code));
}

/// The SGR parameters of a style.
pub fn style_code_list(style: &TermStyle) -> (codes: Vec<u8>)
    ensures
        codes@ == style_codes(*style),
{
    let mut codes: Vec<u8> = Vec::new();
    if let Some(c) = style.foreground_color {
        push_color(&mut codes, true, c);
    }
    if let Some(c) = style.background_color {
        push_color(&mut codes, false, c);
    }
    push_attr(&mut codes, *style, ATTR_BOLD, 1);
    push_attr(&mut codes, *style, ATTR_DIM, 2);
    push_attr(&mut codes, *style, ATTR_ITALIC, 3);
    push_attr(&mut codes, *style, ATTR_UNDERLINED, 4);
    push_attr(&mut codes, *style, ATTR_SLOW_BLINK, 5);
    push_attr(&mut codes, *style, ATTR_RAPID_BLINK, 6);
    push_attr(&mut codes, *style, ATTR_REVERSE, 7);
    push_attr(&mut codes, *style, ATTR_HIDDEN, 8);
    push_attr(&mut codes, *style, ATTR_CROSSED_OUT, 9);
    assert(codes@ =~= style_codes(*style));
    codes
}

/// Append the escape sequence that selects `style` (nothing for a style
/// without codes).
pub fn apply_style(out: &mut Vec<char>, style: &TermStyle)
    ensures
        final(out)@ == old(out)@ + sgr_sequence(*style),
{
    let codes = style_code_list(style);
    if codes.len() == 0 {
        assert(final(out)@ =~= old(out)@ + sgr_sequence(*style));
        return;
    }
    out.push('\u{1b}');
    out.push('[');
    let ghost start = out@;
    let mut i: usize = 0;
    while i < codes.len()
        invariant
            1 <= codes.len(),
            i <= codes.len(),
            out@ == start + join_codes(codes@.subrange(0, i as int)),
        decreases codes.len() - i,
    {
        let ghost prev = out@;
        if i > 0 {
            out.push(';');
        }
        push_decimal(out, codes[i]);
        proof {
            let s = codes@.subrange(0, i + 1);
            assert(s.drop_last() =~= codes@.subrange(0, i as int));
            assert(s.last() == codes@[i as int]);
            if i == 0 {
                assert(join_codes(s) == decimal(codes@[0]));
                assert(join_codes(codes@.subrange(0, 0)) =~= seq![]);
            }
        }
        i = i + 1;
        assert(out@ =~= start + join_codes(codes@.subrange(0, i as int)));
    }
    out.push('m');
    assert(codes@.subrange(0, codes.len() as int) =~= codes@);
    assert(final(out)@ =~= old(out)@ + sgr_sequence(*style));
}

} // verus!
