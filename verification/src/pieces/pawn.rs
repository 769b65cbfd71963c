use vstd::prelude::*;

use crate::board::Board;
use crate::piece::ChoiceOfPromotablePiece;
use crate::piece::Color;
use crate::piece::Effect;
use crate::piece::Move;
use crate::piece::Position;
use crate::piece::shifted;
use crate::piece::XAxis;
use crate::piece::YAxis;

verus! {

/// The direction a pawn advances in: White toward increasing ranks, Black
/// toward decreasing ranks.
pub open spec fn pawn_dir(c: Color) -> int {
    match c {
        Color::Black => -1,
        Color::White => 1,
    }
}

/// Whether `p` lies on the far rank for a pawn of colour `c`: the top rank
/// for White, the bottom rank for Black.
pub open spec fn far_rank(b: Board, c: Color, p: Position) -> bool {
    match c {
        Color::White => p.y.0 == b.dimensions.1.0,
        Color::Black => p.y.0 == 0,
    }
}

/// The pawn's forward move: one square ahead, only onto an empty square
/// inside the board. Landing on the far rank attaches a promotion whose
/// choice is still open.
pub open spec fn pawn_forward_moves(b: Board, piece: Pawn) -> Seq<Move> {
    let f = shifted(piece.position, 0, pawn_dir(piece.color));
    if b.inside(f) && !b.occupied(f) {
        seq![
            Move {
                origin: piece.position,
                destination: f,
                effect: if far_rank(b, piece.color, f) {
                    Some(Effect::Promotion(None))
                } else {
                    None
                },
            },
        ]
    } else {
        Seq::empty()
    }
}

/// One diagonal capture of the pawn: the forward-diagonal square by `dx`,
/// included only when a hostile piece stands on it.
pub open spec fn pawn_attack(b: Board, piece: Pawn, dx: int) -> Seq<Move> {
    let t = shifted(piece.position, dx, pawn_dir(piece.color));
    if b.inside(t) && b.occupied_by(t, piece.color.spec_opposite()) {
        seq![Move { origin: piece.position, destination: t, effect: Some(Effect::Capture) }]
    } else {
        Seq::empty()
    }
}

/// The moves a pawn may make: the forward move, then the left and the right
/// diagonal captures.
pub open spec fn pawn_moves(b: Board, piece: Pawn) -> Seq<Move> {
    pawn_forward_moves(b, piece) + pawn_attack(b, piece, -1) + pawn_attack(b, piece, 1)
}

/// Every move a pawn generates stays inside the board.
pub proof fn lemma_pawn_moves_inside(b: Board, piece: Pawn)
    ensures
        forall|k: int|
            0 <= k < pawn_moves(b, piece).len() ==> b.inside(
                #[trigger] pawn_moves(b, piece)[k].destination,
            ),
{
}

/// Every move a pawn of the side to move generates is executable once an
/// open promotion choice is resolved to `ch`.
pub proof fn lemma_pawn_moves_executable(b: Board, piece: Pawn, ch: ChoiceOfPromotablePiece)
    requires
        b.wf(),
        b.occupied(piece.position),
        b.piece_at(piece.position).color() == b.turn,
        piece.color == b.turn,
    ensures
        forall|k: int|
            0 <= k < pawn_moves(b, piece).len() ==> b.executable(
                crate::piece::with_promotion_choice(#[trigger] pawn_moves(b, piece)[k], ch),
            ) && pawn_moves(b, piece)[k].origin == piece.position,
{
}

/// A pawn: one square forward (blocked by any piece), diagonal captures only.
#[derive(Clone, Copy, PartialEq, Eq, Structural, Debug)]
pub struct Pawn {
    pub color: Color,
    pub position: Position,
    pub already_moved: bool,
}

impl Pawn {
    pub fn new(color: Color, position: Position) -> (r: Self)
        ensures
            r == (Pawn { color, position, already_moved: false }),
    {
        Self { color, position, already_moved: false }
    }

    /// Appends the diagonal capture by `dx` to `moves` when a hostile piece
    /// stands there.
    fn try_attack(&self, board: &Board, moves: &mut Vec<Move>, dx: i8)
        requires
            board.wf(),
            board.inside(self.position),
            -1 <= dx <= 1,
        ensures
            final(moves)@ == old(moves)@ + pawn_attack(*board, *self, dx as int),
    {
        let dy: i8 = match self.color {
            Color::Black => -1,
            Color::White => 1,
        };
        let target = Position { x: XAxis(self.position.x.0 + dx), y: YAxis(self.position.y.0 + dy) };
        proof {
            assert(target == shifted(self.position, dx as int, pawn_dir(self.color)));
        }
        if board.is_inside(&target) {
            match board.color_at(target) {
                Some(c) => {
                    if c != self.color {
                        proof {
                            assert(c == self.color.spec_opposite());
                        }
                        moves.push(
                            Move {
                                origin: self.position,
                                destination: target,
                                effect: Some(Effect::Capture),
                            },
                        );
                    } else {
                        proof {
                            if board.occupied_by(target, self.color.spec_opposite()) {
                                board.lemma_color_at_unique(
                                    target,
                                    self.color,
                                    self.color.spec_opposite(),
                                );
                            }
                        }
                    }
                },
                None => {
                    proof {
                        assert(!board.occupied_by(target, self.color.spec_opposite()));
                    }
                },
            }
        }
    }

    /// Enumerates this pawn's candidate moves against `board`.
    pub fn available_positions(&self, board: &Board) -> (r: Vec<Move>)
        requires
            board.wf(),
            board.inside(self.position),
        ensures
            r@ == pawn_moves(*board, *self),
    {
        let dy: i8 = match self.color {
            Color::Black => -1,
            Color::White => 1,
        };
        let forward = Position { x: self.position.x, y: YAxis(self.position.y.0 + dy) };
        proof {
            assert(forward == shifted(self.position, 0, pawn_dir(self.color)));
        }
        let mut moves: Vec<Move> = Vec::new();
        if board.is_inside(&forward) && !board.occupied_at(forward) {
            let (bl, _, ul, _) = board.get_limits();
            let promotes = match self.color {
                Color::White => forward.y.0 == ul.0.y.0,
                Color::Black => forward.y.0 == bl.0.y.0,
            };
            let effect: Option<Effect> = if promotes {
                Some(Effect::Promotion(None))
            } else {
                None
            };
            moves.push(Move { origin: self.position, destination: forward, effect });
        }
        self.try_attack(board, &mut moves, -1);
        self.try_attack(board, &mut moves, 1);
        proof {
            assert(moves@ =~= pawn_moves(*board, *self));
        }
        moves
    }
}

} // verus!
