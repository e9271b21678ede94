//! The rectangle of one cell, and the search for the cell under a point.

use vstd::prelude::*;
use crate::geometry::Rect;

verus! {

/// A cell of the grid together with the rectangle in which it is drawn.
/// `position[0]` is the cell's column and `position[1]` its row.
#[derive(Debug, Clone, Copy)]
pub struct Piece {
    pub position: [usize; 2],
    pub rect: Rect,
}

impl Piece {
    /// Pairs a cell with its rectangle.
    pub fn new(position: [usize; 2], rect: Rect) -> (r: Piece)
        ensures
            r.position == position,
            r.rect == rect,
    {
        Piece { position: position, rect: rect }
    }
}

/// The index of the first piece whose rectangle has the point `(px, py)`
/// strictly inside, if there is one.
pub open spec fn first_hit(pieces: Seq<Piece>, px: real, py: real) -> Option<int>
    decreases pieces.len(),
{
    if pieces.len() == 0 {
        None
    } else {
        match first_hit(pieces.drop_last(), px, py) {
            Some(i) => Some(i),
            None => if pieces.last().rect@.contains(px, py) {
                Some(pieces.len() - 1)
            } else {
                None
            },
        }
    }
}

/// What `first_hit` finds has the point inside and is preceded by no piece
/// that has; and it finds nothing only where no piece has the point inside.
pub proof fn lemma_first_hit(pieces: Seq<Piece>, px: real, py: real)
    ensures
        match first_hit(pieces, px, py) {
            Some(i) => {
                &&& 0 <= i < pieces.len()
                &&& pieces[i].rect@.contains(px, py)
                &&& forall|j: int| 0 <= j < i ==> !(#[trigger] pieces[j]).rect@.contains(px, py)
            },
            None => forall|j: int| 0 <= j < pieces.len() ==> !(#[trigger] pieces[j]).rect@.contains(px, py),
        },
    decreases pieces.len(),
{
    if pieces.len() > 0 {
        let front = pieces.drop_last();
        lemma_first_hit(front, px, py);
        assert(forall|j: int| 0 <= j < front.len() ==> front[j] == pieces[j]);
    }
}

/// A piece that has the point inside, and that no piece with the point inside
/// precedes, is the one that `first_hit` finds.
pub proof fn lemma_first_hit_at(pieces: Seq<Piece>, px: real, py: real, i: int)
    requires
        0 <= i < pieces.len(),
        pieces[i].rect@.contains(px, py),
        forall|j: int| 0 <= j < i ==> !(#[trigger] pieces[j]).rect@.contains(px, py),
    ensures
        first_hit(pieces, px, py) == Some(i),
{
    lemma_first_hit(pieces, px, py);
}

/// A point on the boundary of a piece's rectangle never resolves to that
/// piece: only the strict interior of a rectangle counts as a hit.
pub proof fn lemma_boundary_is_no_hit(pieces: Seq<Piece>, i: int, px: real, py: real)
    requires
        0 <= i < pieces.len(),
        pieces[i].rect@.on_boundary(px, py),
    ensures
        first_hit(pieces, px, py) != Some(i),
{
    lemma_first_hit(pieces, px, py);
}

} // verus!
