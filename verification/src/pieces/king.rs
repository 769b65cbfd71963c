use vstd::prelude::*;

use crate::board::Board;
use crate::board::king_castle_dest;
use crate::board::rook_castle_dest;
use crate::piece::Color;
use crate::piece::Effect;
use crate::piece::Move;
use crate::piece::Piece;
use crate::piece::PieceType;
use crate::piece::PlusRange;
use crate::piece::Position;
use crate::piece::StarRange;
use crate::piece::XAxis;

verus! {

/// The castling move a king may initiate with `other`: available when
/// `other` is an unmoved rook of the king's colour and the path between them
/// is clear. The move carries the king two files toward the rook while the
/// castling effect relocates the rook to the king's side.
pub open spec fn king_castle_with(b: Board, piece: King, other: Piece) -> Seq<Move> {
    if other.kind() == PieceType::Rook && other.color() == piece.color && !other.has_moved()
        && b.castle_path_ok(piece.position, other.position()) {
        seq![
            Move {
                origin: piece.position,
                destination: king_castle_dest(piece.position, other.position()),
                effect: Some(
                    Effect::Castling {
                        origin: other.position(),
                        destination: rook_castle_dest(piece.position, other.position()),
                    },
                ),
            },
        ]
    } else {
        Seq::empty()
    }
}

/// The castling moves the king finds among the first `n` pieces of the
/// board, in board order.
pub open spec fn king_castles_upto(b: Board, piece: King, n: int) -> Seq<Move>
    decreases n,
{
    if n <= 0 {
        Seq::empty()
    } else {
        king_castles_upto(b, piece, n - 1) + king_castle_with(b, piece, b.pieces@[n - 1])
    }
}

/// The castling moves a king may initiate: one for each unmoved rook of its
/// colour with a clear path, none once the king itself has moved.
pub open spec fn king_castles(b: Board, piece: King) -> Seq<Move> {
    if piece.already_moved {
        Seq::empty()
    } else {
        king_castles_upto(b, piece, b.pieces@.len() as int)
    }
}

/// The moves a king may make: the four diagonal rays followed by the
/// horizontal and vertical ones, each one square deep, classified as quiet
/// or capture, followed by the castling moves that are available.
pub open spec fn king_moves(b: Board, piece: King) -> Seq<Move> {
    b.classified(
        piece.position,
        b.diagonal_positions(piece.position, Some(1u8), piece.color) + (b.horizontal_positions(
            piece.position,
            Some(1u8),
            piece.color,
        ) + b.vertical_positions(piece.position, Some(1u8), piece.color)),
        piece.color,
    ) + king_castles(b, piece)
}

/// Every castling move the king finds among the first `n` pieces stays
/// inside the board.
proof fn lemma_king_castles_upto_inside(b: Board, piece: King, n: int)
    requires
        b.wf(),
        b.inside(piece.position),
        0 <= n <= b.pieces@.len(),
    ensures
        forall|k: int|
            0 <= k < king_castles_upto(b, piece, n).len() ==> b.inside(
                #[trigger] king_castles_upto(b, piece, n)[k].destination,
            ),
    decreases n,
{
    if n > 0 {
        lemma_king_castles_upto_inside(b, piece, n - 1);
        let other = b.pieces@[n - 1];
        assert(b.inside(other.position()));
        if other.kind() == PieceType::Rook && other.color() == piece.color && !other.has_moved()
            && b.castle_path_ok(piece.position, other.position()) {
            b.lemma_castle_dests_inside(piece.position, other.position());
        }
    }
}

/// Every castling move the king finds among the first `n` pieces is
/// executable.
proof fn lemma_king_castles_upto_executable(b: Board, piece: King, n: int)
    requires
        b.wf(),
        b.occupied(piece.position),
        b.piece_at(piece.position).color() == b.turn,
        piece.color == b.turn,
        b.inside(piece.position),
        0 <= n <= b.pieces@.len(),
    ensures
        forall|k: int|
            0 <= k < king_castles_upto(b, piece, n).len() ==> b.executable(
                #[trigger] king_castles_upto(b, piece, n)[k],
            ) && king_castles_upto(b, piece, n)[k].origin == piece.position,
    decreases n,
{
    if n > 0 {
        lemma_king_castles_upto_executable(b, piece, n - 1);
        let other = b.pieces@[n - 1];
        let step = king_castle_with(b, piece, other);
        if other.kind() == PieceType::Rook && other.color() == piece.color && !other.has_moved()
            && b.castle_path_ok(piece.position, other.position()) {
            let kpos = piece.position;
            let rpos = other.position();
            b.lemma_castle_squares_clear(kpos, rpos);
            b.lemma_castle_dests_inside(kpos, rpos);
            assert(b.occupied(rpos));
            let rd = rook_castle_dest(kpos, rpos);
            let kd = king_castle_dest(kpos, rpos);
            assert forall|i: int|
                0 <= i < b.pieces@.len() && (#[trigger] b.pieces@[i]).position() != kpos
                    && b.pieces@[i].position() != rpos implies b.pieces@[i].position() != kd
                && b.pieces@[i].position() != rd by {
                if b.pieces@[i].position() == rd {
                    assert(b.occupied(rd));
                }
                if b.pieces@[i].position() == kd {
                    if kd != rpos {
                        assert(b.occupied(kd));
                    }
                }
            }
            assert(b.executable(step[0]));
        }
    }
}

/// Every move a king of the side to move generates is executable.
pub proof fn lemma_king_moves_executable(b: Board, piece: King)
    requires
        b.wf(),
        b.occupied(piece.position),
        b.piece_at(piece.position).color() == b.turn,
        piece.color == b.turn,
        b.inside(piece.position),
    ensures
        forall|k: int|
            0 <= k < king_moves(b, piece).len() ==> b.executable(
                #[trigger] king_moves(b, piece)[k],
            ) && king_moves(b, piece)[k].origin == piece.position,
{
    let cells = b.diagonal_positions(piece.position, Some(1u8), piece.color) + (
    b.horizontal_positions(piece.position, Some(1u8), piece.color) + b.vertical_positions(
        piece.position,
        Some(1u8),
        piece.color,
    ));
    b.lemma_range_cells_inside(piece.position, Some(1u8), piece.color);
    assert forall|k: int| 0 <= k < cells.len() implies b.inside(#[trigger] cells[k])
        && !b.occupied_by(cells[k], piece.color) by {}
    b.lemma_classified_executable(piece.position, cells, piece.color);
    let sliding = b.classified(piece.position, cells, piece.color);
    lemma_king_castles_upto_executable(b, piece, b.pieces@.len() as int);
    let castles = king_castles(b, piece);
    assert forall|k: int| 0 <= k < king_moves(b, piece).len() implies b.executable(
        #[trigger] king_moves(b, piece)[k],
    ) && king_moves(b, piece)[k].origin == piece.position by {
        if k < sliding.len() {
            assert(king_moves(b, piece)[k] == sliding[k]);
        } else {
            assert(king_moves(b, piece)[k] == castles[k - sliding.len()]);
        }
    }
}

/// Every move a king generates stays inside the board.
pub proof fn lemma_king_moves_inside(b: Board, piece: King)
    requires
        b.wf(),
        b.inside(piece.position),
    ensures
        forall|k: int|
            0 <= k < king_moves(b, piece).len() ==> b.inside(
                #[trigger] king_moves(b, piece)[k].destination,
            ),
{
    let cells = b.diagonal_positions(piece.position, Some(1u8), piece.color) + (
    b.horizontal_positions(piece.position, Some(1u8), piece.color) + b.vertical_positions(
        piece.position,
        Some(1u8),
        piece.color,
    ));
    b.lemma_range_cells_inside(piece.position, Some(1u8), piece.color);
    assert forall|k: int| 0 <= k < cells.len() implies b.inside(#[trigger] cells[k]) by {}
    b.lemma_classified_index(piece.position, cells, piece.color, cells.len() as int);
    lemma_king_castles_upto_inside(b, piece, b.pieces@.len() as int);
}

/// A king: one step in any direction; may castle while unmoved.
#[derive(Clone, Copy, PartialEq, Eq, Structural, Debug)]
pub struct King {
    pub color: Color,
    pub position: Position,
    pub already_moved: bool,
}

impl King {
    pub fn new(color: Color, position: Position) -> (r: Self)
        ensures
            r == (King { color, position, already_moved: false }),
    {
        Self { color, position, already_moved: false }
    }

    /// Enumerates this king's candidate moves against `board`.
    pub fn available_positions(&self, board: &Board) -> (r: Vec<Move>)
        requires
            board.wf(),
            board.inside(self.position),
        ensures
            r@ == king_moves(*board, *self),
    {
        let vertical_axis = board.vertical_range(self.position, Some(1), self.color);
        let horizontal_axis = board.horizontal_range(self.position, Some(1), self.color);
        let plus_range = PlusRange::from(horizontal_axis, vertical_axis);
        let diagonal_range = board.diagonal_range(self.position, Some(1), self.color);
        let max_range = StarRange::from(diagonal_range, plus_range);
        let mut moves = board.classify_positions(self.position, &max_range.0, self.color);
        let ghost range_moves = moves@;
        if !self.already_moved {
            let n = board.get_pieces().len();
            let mut i: usize = 0;
            while i < n
                invariant
                    board.wf(),
                    board.inside(self.position),
                    n == board.pieces@.len(),
                    i <= n,
                    moves@ == range_moves + king_castles_upto(*board, *self, i as int),
                decreases n - i,
            {
                let other = board.get_pieces()[i];
                proof {
                    assert(other == board.pieces@[i as int]);
                }
                if other.get_type() == PieceType::Rook && other.get_color() == self.color
                    && !other.was_moved() {
                    let rp = other.get_position();
                    if board.castle_geometry_ok(self.position, rp) {
                        let dir: i8 = if rp.x.0 < self.position.x.0 {
                            1
                        } else {
                            -1
                        };
                        let rook_destination = Position {
                            x: XAxis(self.position.x.0 - dir),
                            y: self.position.y,
                        };
                        let king_destination = Position {
                            x: XAxis(self.position.x.0 - 2 * dir),
                            y: self.position.y,
                        };
                        proof {
                            assert(rook_destination == rook_castle_dest(self.position, rp));
                            assert(king_destination == king_castle_dest(self.position, rp));
                        }
                        moves.push(
                            Move {
                                origin: self.position,
                                destination: king_destination,
                                effect: Some(
                                    Effect::Castling {
                                        origin: rp,
                                        destination: rook_destination,
                                    },
                                ),
                            },
                        );
                    }
                }
                i = i + 1;
                proof {
                    assert(moves@ =~= range_moves + king_castles_upto(*board, *self, i as int));
                }
            }
        }
        proof {
            assert(moves@ =~= king_moves(*board, *self));
        }
        moves
    }
}

} // verus!
