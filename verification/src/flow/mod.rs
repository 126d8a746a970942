//! Flow layout: how the children of a flow are laid out.

use vstd::prelude::*;

pub mod block;
pub mod distribute;

verus! {

/// The mode of a flow.
#[derive(Clone, Copy, PartialEq, Eq, Structural, Debug, Hash)]
pub enum FlowMode {
    /// A root flow with block-level elements.
    Root,
    /// A flow whose children are block-level elements.
    Block,
    /// A flow whose children are inline-level elements.
    Inline,
}

} // verus!
