use vstd::prelude::*;

verus! {

/// Where an overlay stands relative to the element it belongs to.
#[derive(Clone, Copy, Debug, PartialEq, Eq, Structural)]
pub enum Anchor {
    AboveTop,
    BelowTop,
}

} // verus!
