//! What a frame consists of: the list of fills that a renderer carries out in order.

use vstd::prelude::*;
use crate::geometry::Rect;
use crate::state::State;

verus! {

/// The colour of a fill, by its role. The renderer decides what each role looks like.
#[derive(Debug, Clone, Copy, PartialEq, Eq, Structural)]
pub enum Paint {
    /// The board behind all cells.
    Background,
    /// The empty slot under a cell.
    Slot,
    /// A cell in the given state.
    Cell(State),
}

/// One step of drawing a frame.
#[derive(Debug, Clone, Copy, PartialEq, Eq, Structural)]
pub enum DrawOp {
    /// Wipe the whole surface.
    Clear,
    /// Fill `rect` with `paint`.
    Fill { paint: Paint, rect: Rect },
}

} // verus!
