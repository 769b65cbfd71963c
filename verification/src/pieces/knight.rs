use vstd::prelude::*;

use crate::board::Board;
use crate::piece::Color;
use crate::piece::Move;
use crate::piece::Position;
use crate::piece::shifted;
use crate::piece::XAxis;
use crate::piece::YAxis;

verus! {

/// One candidate jump of a knight: the target square, when it lies inside
/// the board and holds no friendly piece, classified as quiet or capture.
pub open spec fn knight_step(b: Board, piece: Knight, dx: int, dy: int) -> Seq<Move> {
    let target = shifted(piece.position, dx, dy);
    if b.inside(target) && !b.occupied_by(target, piece.color) {
        seq![b.classify(piece.position, target, piece.color)]
    } else {
        Seq::empty()
    }
}

/// The moves a knight may make: the eight fixed L-shaped jumps, kept inside
/// the board and off friendly squares.
pub open spec fn knight_moves(b: Board, piece: Knight) -> Seq<Move> {
    knight_step(b, piece, 1, 2) + knight_step(b, piece, -1, 2) + knight_step(b, piece, 2, 1)
        + knight_step(b, piece, -2, 1) + knight_step(b, piece, 2, -1) + knight_step(
        b,
        piece,
        -2,
        -1,
    ) + knight_step(b, piece, 1, -2) + knight_step(b, piece, -1, -2)
}

/// Every move a knight generates stays inside the board.
pub proof fn lemma_knight_moves_inside(b: Board, piece: Knight)
    ensures
        forall|k: int|
            0 <= k < knight_moves(b, piece).len() ==> b.inside(
                #[trigger] knight_moves(b, piece)[k].destination,
            ),
{
}

/// Any single jump a knight of the side to move generates is executable.
proof fn lemma_knight_step_executable(b: Board, piece: Knight, dx: int, dy: int)
    requires
        b.wf(),
        b.occupied(piece.position),
        b.piece_at(piece.position).color() == b.turn,
        piece.color == b.turn,
    ensures
        forall|k: int|
            0 <= k < knight_step(b, piece, dx, dy).len() ==> b.executable(
                #[trigger] knight_step(b, piece, dx, dy)[k],
            ) && knight_step(b, piece, dx, dy)[k].origin == piece.position,
{
    let target = shifted(piece.position, dx, dy);
    if b.inside(target) && !b.occupied_by(target, piece.color) {
        if b.occupied(target) {
            b.lemma_occupied_some_color(target);
        }
    }
}

/// Every move a knight of the side to move generates is executable.
pub proof fn lemma_knight_moves_executable(b: Board, piece: Knight)
    requires
        b.wf(),
        b.occupied(piece.position),
        b.piece_at(piece.position).color() == b.turn,
        piece.color == b.turn,
    ensures
        forall|k: int|
            0 <= k < knight_moves(b, piece).len() ==> b.executable(
                #[trigger] knight_moves(b, piece)[k],
            ) && knight_moves(b, piece)[k].origin == piece.position,
{
    lemma_knight_step_executable(b, piece, 1, 2);
    lemma_knight_step_executable(b, piece, -1, 2);
    lemma_knight_step_executable(b, piece, 2, 1);
    lemma_knight_step_executable(b, piece, -2, 1);
    lemma_knight_step_executable(b, piece, 2, -1);
    lemma_knight_step_executable(b, piece, -2, -1);
    lemma_knight_step_executable(b, piece, 1, -2);
    lemma_knight_step_executable(b, piece, -1, -2);
}

/// A knight: the eight fixed L-shaped jumps.
#[derive(Clone, Copy, PartialEq, Eq, Structural, Debug)]
pub struct Knight {
    pub color: Color,
    pub position: Position,
}

impl Knight {
    pub fn new(color: Color, position: Position) -> (r: Self)
        ensures
            r == (Knight { color, position }),
    {
        Self { color, position }
    }

    /// Appends the jump by `(dx, dy)` to `moves` when it is playable.
    fn try_jump(&self, board: &Board, moves: &mut Vec<Move>, dx: i8, dy: i8)
        requires
            board.wf(),
            board.inside(self.position),
            -2 <= dx <= 2,
            -2 <= dy <= 2,
        ensures
            final(moves)@ == old(moves)@ + knight_step(*board, *self, dx as int, dy as int),
    {
        let target = Position { x: XAxis(self.position.x.0 + dx), y: YAxis(self.position.y.0 + dy) };
        proof {
            assert(target == shifted(self.position, dx as int, dy as int));
        }
        if board.is_inside(&target) {
            match board.color_at(target) {
                Some(c) => {
                    if c != self.color {
                        proof {
                            if board.occupied_by(target, self.color) {
                                board.lemma_color_at_unique(target, c, self.color);
                            }
                            assert(c == self.color.spec_opposite());
                        }
                        moves.push(
                            Move {
                                origin: self.position,
                                destination: target,
                                effect: Some(crate::piece::Effect::Capture),
                            },
                        );
                    }
                },
                None => {
                    proof {
                        assert(!board.occupied_by(target, self.color));
                        assert(!board.occupied_by(target, self.color.spec_opposite()));
                    }
                    moves.push(Move { origin: self.position, destination: target, effect: None });
                },
            }
        }
    }

    /// Enumerates this knight's candidate moves against `board`.
    pub fn available_positions(&self, board: &Board) -> (r: Vec<Move>)
        requires
            board.wf(),
            board.inside(self.position),
        ensures
            r@ == knight_moves(*board, *self),
    {
        let mut moves: Vec<Move> = Vec::new();
        self.try_jump(board, &mut moves, 1, 2);
        self.try_jump(board, &mut moves, -1, 2);
        self.try_jump(board, &mut moves, 2, 1);
        self.try_jump(board, &mut moves, -2, 1);
        self.try_jump(board, &mut moves, 2, -1);
        self.try_jump(board, &mut moves, -2, -1);
        self.try_jump(board, &mut moves, 1, -2);
        self.try_jump(board, &mut moves, -1, -2);
        proof {
            assert(moves@ =~= knight_moves(*board, *self));
        }
        moves
    }
}

} // verus!
