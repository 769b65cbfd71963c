use vstd::prelude::*;

use crate::board::Board;
use crate::piece::Color;
use crate::piece::Move;
use crate::piece::PlusRange;
use crate::piece::Position;
use crate::piece::StarRange;

verus! {

/// The moves a queen may make: the four diagonal rays followed by the
/// horizontal and vertical ones, unbounded, each square classified as quiet
/// or capture.
pub open spec fn queen_moves(b: Board, piece: Queen) -> Seq<Move> {
    b.classified(
        piece.position,
        b.diagonal_positions(piece.position, None, piece.color) + (b.horizontal_positions(
            piece.position,
            None,
            piece.color,
        ) + b.vertical_positions(piece.position, None, piece.color)),
        piece.color,
    )
}

/// Every move a queen generates stays inside the board.
pub proof fn lemma_queen_moves_inside(b: Board, piece: Queen)
    requires
        b.wf(),
        b.inside(piece.position),
    ensures
        forall|k: int|
            0 <= k < queen_moves(b, piece).len() ==> b.inside(
                #[trigger] queen_moves(b, piece)[k].destination,
            ),
{
    let cells = b.diagonal_positions(piece.position, None, piece.color) + (b.horizontal_positions(
        piece.position,
        None,
        piece.color,
    ) + b.vertical_positions(piece.position, None, piece.color));
    b.lemma_range_cells_inside(piece.position, None, piece.color);
    assert forall|k: int| 0 <= k < cells.len() implies b.inside(#[trigger] cells[k]) by {}
    b.lemma_classified_index(piece.position, cells, piece.color, cells.len() as int);
}

/// Every move a queen of the side to move generates is executable.
pub proof fn lemma_queen_moves_executable(b: Board, piece: Queen)
    requires
        b.wf(),
        b.occupied(piece.position),
        b.piece_at(piece.position).color() == b.turn,
        piece.color == b.turn,
    ensures
        forall|k: int|
            0 <= k < queen_moves(b, piece).len() ==> b.executable(
                #[trigger] queen_moves(b, piece)[k],
            ) && queen_moves(b, piece)[k].origin == piece.position,
{
    let cells = b.diagonal_positions(piece.position, None, piece.color) + (b.horizontal_positions(
        piece.position,
        None,
        piece.color,
    ) + b.vertical_positions(piece.position, None, piece.color));
    b.lemma_range_cells_inside(piece.position, None, piece.color);
    assert forall|k: int| 0 <= k < cells.len() implies b.inside(#[trigger] cells[k])
        && !b.occupied_by(cells[k], piece.color) by {}
    b.lemma_classified_executable(piece.position, cells, piece.color);
}

/// A queen: slides along ranks, files and diagonals.
#[derive(Clone, Copy, PartialEq, Eq, Structural, Debug)]
pub struct Queen {
    pub color: Color,
    pub position: Position,
}

impl Queen {
    pub fn new(color: Color, position: Position) -> (r: Self)
        ensures
            r == (Queen { color, position }),
    {
        Self { color, position }
    }

    /// Enumerates this queen's candidate moves against `board`.
    pub fn available_positions(&self, board: &Board) -> (r: Vec<Move>)
        requires
            board.wf(),
            board.inside(self.position),
        ensures
            r@ == queen_moves(*board, *self),
    {
        let vertical_axis = board.vertical_range(self.position, None, self.color);
        let horizontal_axis = board.horizontal_range(self.position, None, self.color);
        let plus_range = PlusRange::from(horizontal_axis, vertical_axis);
        let diagonal_range = board.diagonal_range(self.position, None, self.color);
        let max_range = StarRange::from(diagonal_range, plus_range);
        board.classify_positions(self.position, &max_range.0, self.color)
    }
}

} // verus!
