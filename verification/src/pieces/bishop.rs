use vstd::prelude::*;

use crate::board::Board;
use crate::piece::Color;
use crate::piece::Move;
use crate::piece::Position;

verus! {

/// The moves a bishop may make: the four diagonal rays, unbounded, each
/// square classified as quiet or capture.
pub open spec fn bishop_moves(b: Board, piece: Bishop) -> Seq<Move> {
    b.classified(piece.position, b.diagonal_positions(piece.position, None, piece.color), piece.color)
}

/// Every move a bishop generates stays inside the board.
pub proof fn lemma_bishop_moves_inside(b: Board, piece: Bishop)
    requires
        b.wf(),
        b.inside(piece.position),
    ensures
        forall|k: int|
            0 <= k < bishop_moves(b, piece).len() ==> b.inside(
                #[trigger] bishop_moves(b, piece)[k].destination,
            ),
{
    let cells = b.diagonal_positions(piece.position, None, piece.color);
    b.lemma_range_cells_inside(piece.position, None, piece.color);
    b.lemma_classified_index(piece.position, cells, piece.color, cells.len() as int);
}

/// Every move a bishop of the side to move generates is executable.
pub proof fn lemma_bishop_moves_executable(b: Board, piece: Bishop)
    requires
        b.wf(),
        b.occupied(piece.position),
        b.piece_at(piece.position).color() == b.turn,
        piece.color == b.turn,
    ensures
        forall|k: int|
            0 <= k < bishop_moves(b, piece).len() ==> b.executable(
                #[trigger] bishop_moves(b, piece)[k],
            ) && bishop_moves(b, piece)[k].origin == piece.position,
{
    let cells = b.diagonal_positions(piece.position, None, piece.color);
    b.lemma_range_cells_inside(piece.position, None, piece.color);
    b.lemma_classified_executable(piece.position, cells, piece.color);
}

/// A bishop: slides along the diagonals.
#[derive(Clone, Copy, PartialEq, Eq, Structural, Debug)]
pub struct Bishop {
    pub color: Color,
    pub position: Position,
}

impl Bishop {
    pub fn new(color: Color, position: Position) -> (r: Self)
        ensures
            r == (Bishop { color, position }),
    {
        Self { color, position }
    }

    /// Enumerates this bishop's candidate moves against `board`.
    pub fn available_positions(&self, board: &Board) -> (r: Vec<Move>)
        requires
            board.wf(),
            board.inside(self.position),
        ensures
            r@ == bishop_moves(*board, *self),
    {
        let max_range = board.diagonal_range(self.position, None, self.color);
        board.classify_positions(self.position, &max_range.0, self.color)
    }
}

} // verus!
