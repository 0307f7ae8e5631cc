//! Glass surfaces: which kind of material a panel is drawn with.
use vstd::prelude::*;

verus! {

#[derive(Debug, Clone, Copy, PartialEq, Eq, Structural)]
pub enum Kind {
    /// Liquid Glass chrome: composer, status pill, sidebar header.
    Chrome,
    /// Content card / sidebar panel: a translucent film over the static
    /// backdrop, letting the compositor's own desktop blur show through.
    Card,
    /// Popover floating over live content: real frost.
    Popover,
}

} // verus!
