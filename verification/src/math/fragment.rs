//! Math fragments: the items of the math layout stream, with their math
//! classes and the metadata that automatic spacing and attachments read.

use vstd::prelude::*;
use crate::frame::{TermFrame, TermFrameItem, is_text_item};
use crate::geom::{Col, Row, TermPoint, TermSize};
use crate::scalar::TermScalar;
use crate::style::TermStyle;
use crate::text::{chars_width, text_cols, width_fits};

verus! {

/// Unicode math class of a character or fragment.
#[derive(Clone, Copy, PartialEq, Eq, Structural, Debug, Hash)]
pub enum MathClass {
    Normal,
    Alphabetic,
    Binary,
    Closing,
    Diacritic,
    Fence,
    GlyphPart,
    Large,
    Opening,
    Punctuation,
    Relation,
    Space,
    Special,
    Unclassified,
    Varying,
}

/// The math class that the lookup table gives a character, if any.
pub open spec fn math_class_spec(ch: char) -> Option<MathClass> {
    match ch {
        '(' | '[' | '{' | '⟮' | '⟨' | '〈' | '⌈' | '⌊' => Some(MathClass::Opening),
        ')' | ']' | '}' | '⟯' | '⟩' | '〉' | '⌉' | '⌋' => Some(MathClass::Closing),
        '|' => Some(MathClass::Fence),
        '‖' | '∥' => Some(MathClass::Fence),
        '+' | '−' | '±' | '∓' | '×' | '÷' | '∗' | '∘' | '∙' | '∩' | '∪' | '∧' | '∨' | '⊂' | '⊃'
            | '⊄' | '⊅' | '⊆' | '⊇' | '⊈' | '⊉' | '⊊' | '⊋' | '⊌' | '⊍' | '⊎' | '⊏' | '⊐' | '⊑'
            | '⊒' | '⊓' | '⊔' | '⊕' | '⊖' | '⊗' | '⊘' | '⊙' | '⊚' | '⊛' | '⊜' | '⊝' | '⋅' | '⋆'
            | '⋇' | '⋈' | '⋉' | '⋊' | '⋋' | '⋌' | '⋍' | '⋎' | '⋏' | '⋐' | '⋑' | '⋒' | '⋓' | '⋔'
            | '⋕' | '⋖' | '⋗' | '⋘' | '⋙' | '⋚' | '⋛' | '⋜' | '⋝' | '⋞' | '⋟' | '⋠' | '⋡' | '⋢'
            | '⋣' | '⋤' | '⋥' | '⋦' | '⋧' | '⋨' | '⋩' | '⋪' | '⋫' | '⋬' | '⋭' | '⋮' | '⋯' | '⋰'
            | '⋱' | '⋲' | '⋳' | '⋴' | '⋵' | '⋶' | '⋷' | '⋸' | '⋹' | '⋺' | '⋻' | '⋼' | '⋽' | '⋾'
            | '⋿' | '\\' | '¬' => Some(MathClass::Binary),
        '=' | '≠' | '≡' | '≢' | '<' | '>' | '≤' | '≥' | '≪' | '≫' | '≮' | '≯' | '≰' | '≱' | '≲'
            | '≳' | '≴' | '≵' | '≶' | '≷' | '≸' | '≹' | '≺' | '≻' | '≼' | '≽' | '≾' | '≿' | '⊀'
            | '⊁' | '∼' | '∽' | '∿' | '≁' | '≂' | '≃' | '≄' | '≅' | '≆' | '≇' | '≈' | '≉' | '≊'
            | '≋' | '≌' | '≍' | '≎' | '≏' | '≐' | '≑' | '≒' | '≓' | '≔' | '≕' | '≖' | '≗' | '≘'
            | '≙' | '≚' | '≛' | '≜' | '≝' | '≞' | '≟' | '≣' | '∈' | '∉' | '∊' | '∋' | '∌' | '∍'
            | '→' | '←' | '↔' | '⇒' | '⇐' | '⇔' | '↦' | '⟹' | '⟸' | '⟺' | '∶' | '∷' | '∝' | '∞'
            | '∟' => Some(MathClass::Relation),
        '∑' | '∫' | '∬' | '∭' | '∮' | '∯' | '∰' | '∱' | '∲' | '∳' | '∏' | '∐' | '⋀' | '⋁' | '⋂'
            | '⋃' | '⨀' | '⨁' | '⨂' | '⨃' | '⨄' | '⨅' | '⨆' | '⨇' | '⨈' | '⨉' | '⨊' | '⨋' | '⨌'
            | '⨍' | '⨎' | '⨏' | '⨐' | '⨑' | '⨒' | '⨓' | '⨔' | '⨕' | '⨖' | '⨗' | '⨘' | '⨙' | '⨚'
            | '⨛' | '⨜' | '⨝' | '⨞' | '⨟' | '⨠' | '⨡' | '⨢' | '⨣' | '⨤' | '⨥' | '⨦' | '⨧' | '⨨'
            | '⨩' | '⨪' | '⨫' | '⨬' | '⨭' | '⨮' | '⨯' | '⨰' | '⨱' | '⨲' | '⨳' | '⨴' | '⨵' | '⨶'
            | '⨷' | '⨸' | '⨹' | '⨺' | '⨻' | '⨼' | '⨽' | '⨾' | '⨿' | '⩀' | '⩁' | '⩂' => Some(MathClass::Large),
        ',' | ';' | ':' | '.' | '!' | '?' => Some(MathClass::Punctuation),
        '\u{0300}'..='\u{036F}' | '\u{20D0}'..='\u{20FF}' => Some(MathClass::Diacritic),
        ' ' | '\u{00A0}' | '\u{2000}'..='\u{200A}' => Some(MathClass::Space),
        'a'..='z' | 'A'..='Z' | 'α'..='ω' | 'Α'..='Ω' | '0'..='9' => Some(MathClass::Alphabetic),
        _ => None,
    }
}

/// Classify a character into its math class; `None` for characters outside
/// the table (callers treat them as `Normal`).
pub fn math_class(ch: char) -> (r: Option<MathClass>)
    ensures
        r == math_class_spec(ch),
{
    match ch {
        '(' | '[' | '{' | '⟮' | '⟨' | '〈' | '⌈' | '⌊' => Some(MathClass::Opening),
        ')' | ']' | '}' | '⟯' | '⟩' | '〉' | '⌉' | '⌋' => Some(MathClass::Closing),
        '|' => Some(MathClass::Fence),
        '‖' | '∥' => Some(MathClass::Fence),
        '+' | '−' | '±' | '∓' | '×' | '÷' | '∗' | '∘' | '∙' | '∩' | '∪' | '∧' | '∨' | '⊂' | '⊃'
            | '⊄' | '⊅' | '⊆' | '⊇' | '⊈' | '⊉' | '⊊' | '⊋' | '⊌' | '⊍' | '⊎' | '⊏' | '⊐' | '⊑'
            | '⊒' | '⊓' | '⊔' | '⊕' | '⊖' | '⊗' | '⊘' | '⊙' | '⊚' | '⊛' | '⊜' | '⊝' | '⋅' | '⋆'
            | '⋇' | '⋈' | '⋉' | '⋊' | '⋋' | '⋌' | '⋍' | '⋎' | '⋏' | '⋐' | '⋑' | '⋒' | '⋓' | '⋔'
            | '⋕' | '⋖' | '⋗' | '⋘' | '⋙' | '⋚' | '⋛' | '⋜' | '⋝' | '⋞' | '⋟' | '⋠' | '⋡' | '⋢'
            | '⋣' | '⋤' | '⋥' | '⋦' | '⋧' | '⋨' | '⋩' | '⋪' | '⋫' | '⋬' | '⋭' | '⋮' | '⋯' | '⋰'
            | '⋱' | '⋲' | '⋳' | '⋴' | '⋵' | '⋶' | '⋷' | '⋸' | '⋹' | '⋺' | '⋻' | '⋼' | '⋽' | '⋾'
            | '⋿' | '\\' | '¬' => Some(MathClass::Binary),
        '=' | '≠' | '≡' | '≢' | '<' | '>' | '≤' | '≥' | '≪' | '≫' | '≮' | '≯' | '≰' | '≱' | '≲'
            | '≳' | '≴' | '≵' | '≶' | '≷' | '≸' | '≹' | '≺' | '≻' | '≼' | '≽' | '≾' | '≿' | '⊀'
            | '⊁' | '∼' | '∽' | '∿' | '≁' | '≂' | '≃' | '≄' | '≅' | '≆' | '≇' | '≈' | '≉' | '≊'
            | '≋' | '≌' | '≍' | '≎' | '≏' | '≐' | '≑' | '≒' | '≓' | '≔' | '≕' | '≖' | '≗' | '≘'
            | '≙' | '≚' | '≛' | '≜' | '≝' | '≞' | '≟' | '≣' | '∈' | '∉' | '∊' | '∋' | '∌' | '∍'
            | '→' | '←' | '↔' | '⇒' | '⇐' | '⇔' | '↦' | '⟹' | '⟸' | '⟺' | '∶' | '∷' | '∝' | '∞'
            | '∟' => Some(MathClass::Relation),
        '∑' | '∫' | '∬' | '∭' | '∮' | '∯' | '∰' | '∱' | '∲' | '∳' | '∏' | '∐' | '⋀' | '⋁' | '⋂'
            | '⋃' | '⨀' | '⨁' | '⨂' | '⨃' | '⨄' | '⨅' | '⨆' | '⨇' | '⨈' | '⨉' | '⨊' | '⨋' | '⨌'
            | '⨍' | '⨎' | '⨏' | '⨐' | '⨑' | '⨒' | '⨓' | '⨔' | '⨕' | '⨖' | '⨗' | '⨘' | '⨙' | '⨚'
            | '⨛' | '⨜' | '⨝' | '⨞' | '⨟' | '⨠' | '⨡' | '⨢' | '⨣' | '⨤' | '⨥' | '⨦' | '⨧' | '⨨'
            | '⨩' | '⨪' | '⨫' | '⨬' | '⨭' | '⨮' | '⨯' | '⨰' | '⨱' | '⨲' | '⨳' | '⨴' | '⨵' | '⨶'
            | '⨷' | '⨸' | '⨹' | '⨺' | '⨻' | '⨼' | '⨽' | '⨾' | '⨿' | '⩀' | '⩁' | '⩂' => Some(MathClass::Large),
        ',' | ';' | ':' | '.' | '!' | '?' => Some(MathClass::Punctuation),
        '\u{0300}'..='\u{036F}' | '\u{20D0}'..='\u{20FF}' => Some(MathClass::Diacritic),
        ' ' | '\u{00A0}' | '\u{2000}'..='\u{200A}' => Some(MathClass::Space),
        'a'..='z' | 'A'..='Z' | 'α'..='ω' | 'Α'..='Ω' | '0'..='9' => Some(MathClass::Alphabetic),
        _ => None,
    }
}

/// Whether a large operator shows its attachments as limits (above/below)
/// or as scripts (to the right).
#[derive(Clone, Copy, PartialEq, Eq, Structural, Debug, Hash)]
pub enum TermLimits {
    /// Never use limits layout.
    Never,
    /// Use limits layout only in display equations.
    Display,
    /// Always use limits layout.
    Always,
}

impl TermLimits {
    /// Whether limits layout is active.
    pub open spec fn active_spec(self, is_display: bool) -> bool {
        match self {
            TermLimits::Never => false,
            TermLimits::Display => is_display,
            TermLimits::Always => true,
        }
    }

    /// Whether limits layout is active, given whether the equation is in
    /// display mode.
    pub fn active(self, is_display: bool) -> (r: bool)
        ensures
            r == self.active_spec(is_display),
    {
        match self {
            TermLimits::Never => false,
            TermLimits::Display => is_display,
            TermLimits::Always => true,
        }
    }
}

/// A frame together with its math-layout metadata.
pub struct TermMathFrameFragment {
    /// The rendered content.
    pub frame: TermFrame,
    /// Unicode math class: determines automatic inter-fragment spacing.
    pub class: MathClass,
    /// Whether limits layout is used for large operators.
    pub limits: TermLimits,
    /// Whether this fragment has explicit surrounding space.
    pub spaced: bool,
    /// Whether this fragment is "text-like".
    pub text_like: bool,
    /// Extra columns after italic content.
    pub italics_correction: Col,
    /// Column of the accent attachment point.
    pub accent_attach: Col,
}

/// A single item in the math layout stream.
pub enum TermMathFragment {
    /// A rendered box with its math metadata.
    Frame(TermMathFrameFragment),
    /// A soft space: materialised only between spaced fragments.
    Space,
    /// Horizontal whitespace of the given columns; weak when the flag is set.
    Spacing(Col, bool),
    /// An alignment point.
    Align,
    /// An explicit line break.
    Linebreak,
}

impl TermMathFrameFragment {
    /// The default accent attachment column for a frame: half its width
    /// (read as an `i32`, rounded toward zero), never negative.
    pub open spec fn default_attach(frame: TermFrame) -> Col {
        TermScalar::Finite((frame.size.cols.get_spec() / 2) as i64).max_spec(TermScalar::Finite(0))
    }

    /// Whether the fragment is `frame` with the defaults of [`Self::new`].
    pub open spec fn is_new_of(self, frame: TermFrame) -> bool {
        &&& self.frame == frame
        &&& self.class == MathClass::Normal
        &&& self.limits == TermLimits::Never
        &&& !self.spaced
        &&& !self.text_like
        &&& self.italics_correction == TermScalar::Finite(0)
        &&& self.accent_attach == Self::default_attach(frame)
    }

    /// A fragment from `frame`, of class `Normal`, without limits, spacing or
    /// text-likeness, no italics correction, and the accent attached at
    /// half its width.
    pub fn new(frame: TermFrame) -> (r: TermMathFrameFragment)
        ensures
            r.is_new_of(frame),
    {
        let attach = TermScalar::new(frame.cols().get() / 2).max(TermScalar::zero());
        TermMathFrameFragment {
            frame,
            class: MathClass::Normal,
            limits: TermLimits::Never,
            spaced: false,
            text_like: false,
            italics_correction: TermScalar::zero(),
            accent_attach: attach,
        }
    }

    /// The same fragment with another class.
    pub fn with_class(self, class: MathClass) -> (r: TermMathFrameFragment)
        ensures
            r == (TermMathFrameFragment { class, ..self }),
    {
        TermMathFrameFragment { class, ..self }
    }

    /// The same fragment with another limits mode.
    pub fn with_limits(self, limits: TermLimits) -> (r: TermMathFrameFragment)
        ensures
            r == (TermMathFrameFragment { limits, ..self }),
    {
        TermMathFrameFragment { limits, ..self }
    }

    /// The same fragment with another `spaced` flag.
    pub fn with_spaced(self, spaced: bool) -> (r: TermMathFrameFragment)
        ensures
            r == (TermMathFrameFragment { spaced, ..self }),
    {
        TermMathFrameFragment { spaced, ..self }
    }

    /// The same fragment with another `text_like` flag.
    pub fn with_text_like(self, text_like: bool) -> (r: TermMathFrameFragment)
        ensures
            r == (TermMathFrameFragment { text_like, ..self }),
    {
        TermMathFrameFragment { text_like, ..self }
    }

    /// The same fragment with another italics correction.
    pub fn with_italics_correction(self, ic: Col) -> (r: TermMathFrameFragment)
        ensures
            r == (TermMathFrameFragment { italics_correction: ic, ..self }),
    {
        TermMathFrameFragment { italics_correction: ic, ..self }
    }

    /// The same fragment with another accent attachment column.
    pub fn with_accent_attach(self, aa: Col) -> (r: TermMathFrameFragment)
        ensures
            r == (TermMathFrameFragment { accent_attach: aa, ..self }),
    {
        TermMathFrameFragment { accent_attach: aa, ..self }
    }

    /// The width in columns.
    pub fn width(&self) -> (r: Col)
        ensures
            r == self.frame.size.cols,
    {
        self.frame.cols()
    }

    /// The height in rows.
    pub fn rows(&self) -> (r: Row)
        ensures
            r == self.frame.size.rows,
    {
        self.frame.rows()
    }

    /// Rows above the baseline.
    pub fn ascent(&self) -> (r: Row)
        ensures
            r == self.frame.baseline,
    {
        self.frame.ascent()
    }

    /// Rows at or below the baseline.
    pub fn descent(&self) -> (r: Row)
        ensures
            r == self.frame.descent_spec(),
    {
        self.frame.descent()
    }

    /// The baseline row.
    pub fn baseline(&self) -> (r: Row)
        ensures
            r == self.frame.baseline,
    {
        self.frame.baseline()
    }
}

impl TermMathFragment {
    /// The display width in columns.
    pub open spec fn width_spec(self) -> Col {
        match self {
            TermMathFragment::Frame(f) => f.frame.size.cols,
            TermMathFragment::Spacing(c, _) => c,
            _ => TermScalar::Finite(0),
        }
    }

    /// The height in rows.
    pub open spec fn rows_spec(self) -> Row {
        match self {
            TermMathFragment::Frame(f) => f.frame.size.rows,
            _ => TermScalar::Finite(0),
        }
    }

    /// Rows above the baseline.
    pub open spec fn ascent_spec(self) -> Row {
        match self {
            TermMathFragment::Frame(f) => f.frame.baseline,
            _ => TermScalar::Finite(0),
        }
    }

    /// Rows at or below the baseline.
    pub open spec fn descent_spec(self) -> Row {
        match self {
            TermMathFragment::Frame(f) => f.frame.descent_spec(),
            _ => TermScalar::Finite(0),
        }
    }

    /// The math class (`Normal` for non-frame fragments).
    pub open spec fn class_spec(self) -> MathClass {
        match self {
            TermMathFragment::Frame(f) => f.class,
            _ => MathClass::Normal,
        }
    }

    /// Whether the fragment is spaced (only frames can be).
    pub open spec fn is_spaced_spec(self) -> bool {
        match self {
            TermMathFragment::Frame(f) => f.spaced,
            _ => false,
        }
    }

    /// Whether the fragment is text-like (only frames can be).
    pub open spec fn is_text_like_spec(self) -> bool {
        match self {
            TermMathFragment::Frame(f) => f.text_like,
            _ => false,
        }
    }

    /// Whether the fragment is ignored by automatic spacing.
    pub open spec fn is_ignorant_spec(self) -> bool {
        self is Align || self is Linebreak
    }

    /// Display width in terminal columns.
    pub fn width(&self) -> (r: Col)
        ensures
            r == self.width_spec(),
    {
        match self {
            TermMathFragment::Frame(f) => f.width(),
            TermMathFragment::Spacing(cols, _) => *cols,
            _ => TermScalar::zero(),
        }
    }

    /// Total height in terminal rows.
    pub fn rows(&self) -> (r: Row)
        ensures
            r == self.rows_spec(),
    {
        match self {
            TermMathFragment::Frame(f) => f.rows(),
            _ => TermScalar::zero(),
        }
    }

    /// Rows above the baseline.
    pub fn ascent(&self) -> (r: Row)
        ensures
            r == self.ascent_spec(),
    {
        match self {
            TermMathFragment::Frame(f) => f.ascent(),
            _ => TermScalar::zero(),
        }
    }

    /// Rows at or below the baseline.
    pub fn descent(&self) -> (r: Row)
        ensures
            r == self.descent_spec(),
    {
        match self {
            TermMathFragment::Frame(f) => f.descent(),
            _ => TermScalar::zero(),
        }
    }

    /// Baseline row index.
    pub fn baseline(&self) -> (r: Row)
        ensures
            r == self.ascent_spec(),
    {
        match self {
            TermMathFragment::Frame(f) => f.baseline(),
            _ => TermScalar::zero(),
        }
    }

    /// Unicode math class of this fragment.
    pub fn class(&self) -> (r: MathClass)
        ensures
            r == self.class_spec(),
    {
        match self {
            TermMathFragment::Frame(f) => f.class,
            _ => MathClass::Normal,
        }
    }

    /// Limits mode for large operators (`Never` for non-frames).
    pub fn limits(&self) -> (r: TermLimits)
        ensures
            r == (match *self {
                TermMathFragment::Frame(f) => f.limits,
                _ => TermLimits::Never,
            }),
    {
        match self {
            TermMathFragment::Frame(f) => f.limits,
            _ => TermLimits::Never,
        }
    }

    /// Whether automatic spacing ignores this fragment (alignment points
    /// and line breaks).
    pub fn is_ignorant(&self) -> (r: bool)
        ensures
            r == self.is_ignorant_spec(),
    {
        match self {
            TermMathFragment::Align => true,
            TermMathFragment::Linebreak => true,
            _ => false,
        }
    }

    /// Whether this fragment has explicit surrounding space.
    pub fn is_spaced(&self) -> (r: bool)
        ensures
            r == self.is_spaced_spec(),
    {
        match self {
            TermMathFragment::Frame(f) => f.spaced,
            _ => false,
        }
    }

    /// Whether this fragment is text-like.
    pub fn is_text_like(&self) -> (r: bool)
        ensures
            r == self.is_text_like_spec(),
    {
        match self {
            TermMathFragment::Frame(f) => f.text_like,
            _ => false,
        }
    }

    /// Extra columns after italic content (0 for non-frames).
    pub fn italics_correction(&self) -> (r: Col)
        ensures
            r == (match *self {
                TermMathFragment::Frame(f) => f.italics_correction,
                _ => TermScalar::Finite(0),
            }),
    {
        match self {
            TermMathFragment::Frame(f) => f.italics_correction,
            _ => TermScalar::zero(),
        }
    }

    /// Column of the accent attachment point (0 for non-frames).
    pub fn accent_attach(&self) -> (r: Col)
        ensures
            r == (match *self {
                TermMathFragment::Frame(f) => f.accent_attach,
                _ => TermScalar::Finite(0),
            }),
    {
        match self {
            TermMathFragment::Frame(f) => f.accent_attach,
            _ => TermScalar::zero(),
        }
    }

    /// The fragment with another class (non-frames are unchanged).
    pub open spec fn with_class_spec(self, class: MathClass) -> TermMathFragment {
        match self {
            TermMathFragment::Frame(f) => TermMathFragment::Frame(TermMathFrameFragment { class, ..f }),
            _ => self,
        }
    }

    /// Set the math class (no-op for non-frame fragments).
    pub fn set_class(&mut self, class: MathClass)
        ensures
            *final(self) == old(self).with_class_spec(class),
    {
        match self {
            TermMathFragment::Frame(f) => {
                f.class = class;
            },
            _ => {},
        }
    }

    /// Set the limits mode (no-op for non-frame fragments).
    pub fn set_limits(&mut self, limits: TermLimits)
        ensures
            *final(self) == (match *old(self) {
                TermMathFragment::Frame(f) => TermMathFragment::Frame(TermMathFrameFragment { limits, ..f }),
                _ => *old(self),
            }),
    {
        match self {
            TermMathFragment::Frame(f) => {
                f.limits = limits;
            },
            _ => {},
        }
    }

    /// The underlying frame; spacing gives an empty frame of its width (at
    /// least 0) and no height, other non-frames an empty frame of no size.
    pub fn into_frame(self) -> (r: TermFrame)
        ensures
            is_fragment_frame(r, self),
    {
        match self {
            TermMathFragment::Frame(f) => f.frame,
            TermMathFragment::Spacing(cols, _) => TermFrame::new(TermSize::new(cols.max(TermScalar::zero()), TermScalar::zero())),
            _ => TermFrame::new(TermSize::zero()),
        }
    }

    /// A fragment holding a frame fragment.
    pub fn from_frame(f: TermMathFrameFragment) -> (r: TermMathFragment)
        ensures
            r == TermMathFragment::Frame(f),
    {
        TermMathFragment::Frame(f)
    }
}

/// Whether `f` is the frame of a fragment: a frame fragment's own frame;
/// for spacing an empty frame of its width (at least 0) and no height; for
/// anything else an empty frame of no size.
pub open spec fn is_fragment_frame(f: TermFrame, frag: TermMathFragment) -> bool {
    match frag {
        TermMathFragment::Frame(ff) => f == ff.frame,
        TermMathFragment::Spacing(c, _) => f.is_empty_of(
            TermSize { cols: c.max_spec(TermScalar::Finite(0)), rows: TermScalar::Finite(0) },
        ),
        _ => f.is_empty_of(TermSize { cols: TermScalar::Finite(0), rows: TermScalar::Finite(0) }),
    }
}

/// Whether `f` is a one-row frame holding `text` as its single text item,
/// at the origin, in the default style, as wide as the text.
pub open spec fn is_text_frame(f: TermFrame, text: Seq<char>) -> bool {
    &&& f.size == (TermSize { cols: TermScalar::Finite(chars_width(text) as i64), rows: TermScalar::Finite(1) })
    &&& f.baseline == TermScalar::Finite(0)
    &&& f.content_height == TermScalar::Finite(0)
    &&& f.items@.len() == 1
    &&& f.items@[0].0 == TermPoint::zero_spec()
    &&& is_text_item(f.items@[0].1, text, TermStyle::default_spec())
}

/// A one-row frame holding the text, as wide as the text.
pub fn make_text_frame(text: &str) -> (r: TermFrame)
    requires
        width_fits(text@),
    ensures
        is_text_frame(r, text@),
        0 <= chars_width(text@) <= 3 * text@.len(),
{
    let cols = text_cols(text);
    TermFrame::text(text.to_owned(), TermStyle::plain(), cols, TermScalar::new(1))
}

} // verus!
