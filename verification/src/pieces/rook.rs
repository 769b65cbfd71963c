use vstd::prelude::*;

use crate::board::Board;
use crate::board::king_castle_dest;
use crate::board::rook_castle_dest;
use crate::piece::Color;
use crate::piece::Effect;
use crate::piece::Move;
use crate::piece::PlusRange;
use crate::piece::Position;
use crate::piece::XAxis;

verus! {

/// The castling move a rook may initiate: available when neither it nor the
/// unique same-coloured king has moved and the path between them is clear.
/// The move carries the rook to the king's side while the castling effect
/// relocates the king two files toward the rook.
pub open spec fn rook_castles(b: Board, piece: Rook) -> Seq<Move> {
    if piece.already_moved {
        Seq::empty()
    } else if !b.has_king(piece.color) {
        Seq::empty()
    } else {
        let k = b.king_of(piece.color);
        if !k.has_moved() && b.castle_path_ok(k.position(), piece.position) {
            seq![
                Move {
                    origin: piece.position,
                    destination: rook_castle_dest(k.position(), piece.position),
                    effect: Some(
                        Effect::Castling {
                            origin: k.position(),
                            destination: king_castle_dest(k.position(), piece.position),
                        },
                    ),
                },
            ]
        } else {
            Seq::empty()
        }
    }
}

/// The moves a rook may make: the horizontal and vertical rays, unbounded,
/// each square classified as quiet or capture, followed by the castling move
/// when it is available.
pub open spec fn rook_moves(b: Board, piece: Rook) -> Seq<Move> {
    b.classified(
        piece.position,
        b.horizontal_positions(piece.position, None, piece.color) + b.vertical_positions(
            piece.position,
            None,
            piece.color,
        ),
        piece.color,
    ) + rook_castles(b, piece)
}

/// Every move a rook generates stays inside the board.
pub proof fn lemma_rook_moves_inside(b: Board, piece: Rook)
    requires
        b.wf(),
        b.inside(piece.position),
    ensures
        forall|k: int|
            0 <= k < rook_moves(b, piece).len() ==> b.inside(
                #[trigger] rook_moves(b, piece)[k].destination,
            ),
{
    let cells = b.horizontal_positions(piece.position, None, piece.color) + b.vertical_positions(
        piece.position,
        None,
        piece.color,
    );
    b.lemma_range_cells_inside(piece.position, None, piece.color);
    assert forall|k: int| 0 <= k < cells.len() implies b.inside(#[trigger] cells[k]) by {}
    b.lemma_classified_index(piece.position, cells, piece.color, cells.len() as int);
    if !piece.already_moved && b.has_king(piece.color) {
        let king = b.king_of(piece.color);
        assert(b.inside(king.position())) by {
            let i = b.king_index(piece.color);
            assert(0 <= i < b.pieces@.len() && b.pieces@[i] == king);
        }
        if !king.has_moved() && b.castle_path_ok(king.position(), piece.position) {
            b.lemma_castle_dests_inside(king.position(), piece.position);
        }
    }
}

/// Every move a rook of the side to move generates is executable.
pub proof fn lemma_rook_moves_executable(b: Board, piece: Rook)
    requires
        b.wf(),
        b.occupied(piece.position),
        b.piece_at(piece.position).color() == b.turn,
        piece.color == b.turn,
        b.inside(piece.position),
    ensures
        forall|k: int|
            0 <= k < rook_moves(b, piece).len() ==> b.executable(
                #[trigger] rook_moves(b, piece)[k],
            ) && rook_moves(b, piece)[k].origin == piece.position,
{
    let cells = b.horizontal_positions(piece.position, None, piece.color) + b.vertical_positions(
        piece.position,
        None,
        piece.color,
    );
    b.lemma_range_cells_inside(piece.position, None, piece.color);
    assert forall|k: int| 0 <= k < cells.len() implies b.inside(#[trigger] cells[k])
        && !b.occupied_by(cells[k], piece.color) by {}
    b.lemma_classified_executable(piece.position, cells, piece.color);
    let sliding = b.classified(piece.position, cells, piece.color);
    let castles = rook_castles(b, piece);
    if !piece.already_moved && b.has_king(piece.color) {
        let kg = b.king_of(piece.color);
        let ki = b.king_index(piece.color);
        assert(0 <= ki < b.pieces@.len() && b.pieces@[ki] == kg);
        if !kg.has_moved() && b.castle_path_ok(kg.position(), piece.position) {
            let kpos = kg.position();
            let rpos = piece.position;
            b.lemma_castle_squares_clear(kpos, rpos);
            b.lemma_castle_dests_inside(kpos, rpos);
            assert(b.occupied(kpos));
            let rd = rook_castle_dest(kpos, rpos);
            let kd = king_castle_dest(kpos, rpos);
            assert forall|i: int|
                0 <= i < b.pieces@.len() && (#[trigger] b.pieces@[i]).position() != rpos
                    && b.pieces@[i].position() != kpos implies b.pieces@[i].position() != rd
                && b.pieces@[i].position() != kd by {
                if b.pieces@[i].position() == rd {
                    assert(b.occupied(rd));
                }
                if b.pieces@[i].position() == kd {
                    if kd != rpos {
                        assert(b.occupied(kd));
                    }
                }
            }
            assert(b.executable(castles[0]));
        }
    }
    assert forall|k: int| 0 <= k < rook_moves(b, piece).len() implies b.executable(
        #[trigger] rook_moves(b, piece)[k],
    ) && rook_moves(b, piece)[k].origin == piece.position by {
        if k < sliding.len() {
            assert(rook_moves(b, piece)[k] == sliding[k]);
        } else {
            assert(rook_moves(b, piece)[k] == castles[k - sliding.len()]);
        }
    }
}

/// A rook: slides along ranks and files; may castle while unmoved.
#[derive(Clone, Copy, PartialEq, Eq, Structural, Debug)]
pub struct Rook {
    pub color: Color,
    pub position: Position,
    pub already_moved: bool,
}

impl Rook {
    pub fn new(color: Color, position: Position) -> (r: Self)
        ensures
            r == (Rook { color, position, already_moved: false }),
    {
        Self { color, position, already_moved: false }
    }

    /// Enumerates this rook's candidate moves against `board`.
    pub fn available_positions(&self, board: &Board) -> (r: Vec<Move>)
        requires
            board.wf(),
            board.inside(self.position),
        ensures
            r@ == rook_moves(*board, *self),
    {
        let vertical_axis = board.vertical_range(self.position, None, self.color);
        let horizontal_axis = board.horizontal_range(self.position, None, self.color);
        let plus_range = PlusRange::from(horizontal_axis, vertical_axis);
        let mut moves = board.classify_positions(self.position, &plus_range.0, self.color);
        if !self.already_moved {
            match board.find_king(self.color) {
                Some(king) => {
                    if !king.was_moved() {
                        let kp = king.get_position();
                        if board.castle_geometry_ok(kp, self.position) {
                            let dir: i8 = if self.position.x.0 < kp.x.0 {
                                1
                            } else {
                                -1
                            };
                            let rook_destination = Position { x: XAxis(kp.x.0 - dir), y: kp.y };
                            let king_destination = Position {
                                x: XAxis(kp.x.0 - 2 * dir),
                                y: kp.y,
                            };
                            proof {
                                assert(rook_destination == rook_castle_dest(kp, self.position));
                                assert(king_destination == king_castle_dest(kp, self.position));
                            }
                            moves.push(
                                Move {
                                    origin: self.position,
                                    destination: rook_destination,
                                    effect: Some(
                                        Effect::Castling {
                                            origin: kp,
                                            destination: king_destination,
                                        },
                                    ),
                                },
                            );
                        }
                    }
                },
                None => {},
            }
        }
        proof {
            assert(moves@ =~= rook_moves(*board, *self));
        }
        moves
    }
}

} // verus!
