//! Inline layout: line-break opportunities, line trimming, logical item
//! order and the character classes that shaping and justification read.

pub mod inline_box;
pub mod line;
pub mod linebreak;
pub mod paragraph;
pub mod shaping;

use vstd::prelude::*;

verus! {

/// Where a paragraph stands relative to its neighbours.
#[derive(Clone, Copy, PartialEq, Eq, Structural, Debug, Hash)]
pub enum ParSituation {
    /// The first paragraph of its flow.
    First,
    /// A paragraph that directly follows another one.
    Consecutive,
    /// Any other paragraph.
    Other,
}

} // verus!
