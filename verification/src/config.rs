//! Terminal rendering configuration.
//!
//! [`RenderMode`] selects between Unicode and ASCII rendering of math
//! constructs and shapes; [`TermConfig`] bundles render-time options.

use vstd::prelude::*;
use crate::geom::Col;
use crate::scalar::TermScalar;

verus! {

/// Whether to use Unicode drawing characters.
#[derive(Clone, Copy, PartialEq, Eq, Structural, Debug, Hash)]
pub enum RenderMode {
    /// Use Unicode drawing / box-drawing characters.  The default.
    Unicode,
    /// Use ASCII-only characters for maximum compatibility.
    Ascii,
}

impl Default for RenderMode {
    fn default() -> (r: RenderMode)
        ensures
            r == RenderMode::Unicode,
    {
        RenderMode::Unicode
    }
}

impl RenderMode {
    /// Whether this is Unicode mode.
    pub fn is_unicode(self) -> (r: bool)
        ensures
            r == (self == RenderMode::Unicode),
    {
        self == RenderMode::Unicode
    }

    /// Whether this is ASCII mode.
    pub fn is_ascii(self) -> (r: bool)
        ensures
            r == (self == RenderMode::Ascii),
    {
        self == RenderMode::Ascii
    }

    /// The horizontal bar character.
    pub open spec fn hbar_spec(self) -> char {
        if self == RenderMode::Unicode { '─' } else { '-' }
    }

    /// The vertical bar character.
    pub open spec fn vbar_spec(self) -> char {
        if self == RenderMode::Unicode { '│' } else { '|' }
    }

    /// Horizontal bar: `─` in Unicode mode, `-` in ASCII mode.
    pub fn hbar(self) -> (r: char)
        ensures
            r == self.hbar_spec(),
    {
        if self.is_unicode() { '─' } else { '-' }
    }

    /// Vertical bar: `│` in Unicode mode, `|` in ASCII mode.
    pub fn vbar(self) -> (r: char)
        ensures
            r == self.vbar_spec(),
    {
        if self.is_unicode() { '│' } else { '|' }
    }

    /// Square-root sign: `√` in Unicode mode, `V` in ASCII mode.
    pub fn sqrt_sym(self) -> (r: char)
        ensures
            r == (if self == RenderMode::Unicode { '√' } else { 'V' }),
    {
        if self.is_unicode() { '√' } else { 'V' }
    }

    /// Overline over a radicand: `─` in Unicode mode, `_` in ASCII mode.
    pub fn sqrt_overline(self) -> (r: char)
        ensures
            r == (if self == RenderMode::Unicode { '─' } else { '_' }),
    {
        if self.is_unicode() { '─' } else { '_' }
    }

    /// `(` in both modes.
    pub fn left_paren(self) -> (r: char)
        ensures
            r == '(',
    {
        '('
    }

    /// `)` in both modes.
    pub fn right_paren(self) -> (r: char)
        ensures
            r == ')',
    {
        ')'
    }

    /// `[` in both modes.
    pub fn left_bracket(self) -> (r: char)
        ensures
            r == '[',
    {
        '['
    }

    /// `]` in both modes.
    pub fn right_bracket(self) -> (r: char)
        ensures
            r == ']',
    {
        ']'
    }

    /// `{` in both modes.
    pub fn left_brace(self) -> (r: char)
        ensures
            r == '{',
    {
        '{'
    }

    /// `}` in both modes.
    pub fn right_brace(self) -> (r: char)
        ensures
            r == '}',
    {
        '}'
    }
}

/// Terminal rendering configuration.
#[derive(Clone, Copy, PartialEq, Eq, Structural, Debug)]
pub struct TermConfig {
    /// ASCII or Unicode rendering mode.
    pub mode: RenderMode,
    /// Indent step used for nested blocks.
    pub indent: Col,
    /// Gap between blocks in rows.
    pub block_gap: Col,
    /// Gap between paragraphs in rows.
    pub par_gap: Col,
}

impl Default for TermConfig {
    /// Unicode mode, an indent of 2 and gaps of 1.
    fn default() -> (r: TermConfig)
        ensures
            r == (TermConfig {
                mode: RenderMode::Unicode,
                indent: TermScalar::Finite(2),
                block_gap: TermScalar::Finite(1),
                par_gap: TermScalar::Finite(1),
            }),
    {
        TermConfig {
            mode: RenderMode::Unicode,
            indent: TermScalar::new(2),
            block_gap: TermScalar::new(1),
            par_gap: TermScalar::new(1),
        }
    }
}

} // verus!
