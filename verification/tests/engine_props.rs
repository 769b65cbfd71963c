use board::Board;
use board::ChoiceOfPromotablePiece;
use board::Color;
use board::Effect;
use board::Piece;
use board::PieceType;
use board::Position;
use board::XAxis;
use board::YAxis;
use board::King;
use board::Knight;
use board::Pawn;
use board::Queen;
use board::Rook;

fn pos(x: i8, y: i8) -> Position {
    Position::new(XAxis::new(x), YAxis::new(y))
}

#[test]
fn knight_from_corner_has_two_moves() {
    let pieces: Vec<Piece> = vec![Piece::Knight(Knight::new(Color::White, pos(0, 0)))];
    let board = Board::new(pieces);

    let moves = board.get_moves_from(pos(0, 0)).unwrap();
    assert_eq!(moves.len(), 2);
    let destinations: Vec<Position> = moves.iter().map(|m| m.destination).collect();
    assert!(destinations.contains(&pos(1, 2)));
    assert!(destinations.contains(&pos(2, 1)));
}

#[test]
fn every_move_stays_inside_the_board() {
    let board = Board::default();
    for piece in board.get_pieces().iter() {
        if let Some(moves) = board.get_moves_from(piece.get_position()) {
            for mov in moves {
                assert!(0 <= mov.destination.x.0 && mov.destination.x.0 <= 7);
                assert!(0 <= mov.destination.y.0 && mov.destination.y.0 <= 7);
            }
        }
    }
}

#[test]
fn query_without_mutation_is_idempotent() {
    let board = Board::default();
    let first = board.get_moves_from(pos(1, 0));
    let second = board.get_moves_from(pos(1, 0));
    assert_eq!(first, second);
    let empty_first = board.get_moves_from(pos(4, 4));
    let empty_second = board.get_moves_from(pos(4, 4));
    assert_eq!(empty_first, empty_second);
}

#[test]
fn turn_alternates_after_each_executed_move() {
    let mut board = Board::default();
    assert_eq!(board.get_turn(), Color::White);

    let mov = board.get_moves_from(pos(1, 0)).unwrap()[0];
    board.execute_move(mov);
    assert_eq!(board.get_turn(), Color::Black);

    let mov = board.get_moves_from(pos(1, 7)).unwrap()[0];
    board.execute_move(mov);
    assert_eq!(board.get_turn(), Color::White);
}

#[test]
fn capture_reduces_piece_count_by_exactly_one() {
    let pieces: Vec<Piece> = vec![
        Piece::Rook(Rook::new(Color::White, pos(0, 0))),
        Piece::Pawn(Pawn::new(Color::Black, pos(0, 5))),
        Piece::King(King::new(Color::Black, pos(7, 7))),
    ];
    let mut board = Board::new(pieces);

    let capture = board
        .get_moves_from(pos(0, 0))
        .unwrap()
        .into_iter()
        .find(|m| m.effect.is_some())
        .unwrap();
    assert_eq!(capture.destination, pos(0, 5));
    assert!(matches!(capture.effect, Some(Effect::Capture)));

    board.execute_move(capture);

    assert_eq!(board.get_pieces().len(), 2);
    let rook = board
        .get_pieces()
        .iter()
        .find(|p| p.get_type() == PieceType::Rook)
        .unwrap();
    assert_eq!(rook.get_position(), pos(0, 5));
    let king = board
        .get_pieces()
        .iter()
        .find(|p| p.get_type() == PieceType::King)
        .unwrap();
    assert_eq!(king.get_position(), pos(7, 7));
}

#[test]
fn castling_marks_both_pieces_as_moved() {
    let pieces: Vec<Piece> = vec![
        Piece::Rook(Rook::new(Color::White, pos(7, 0))),
        Piece::King(King::new(Color::White, pos(4, 0))),
    ];
    let mut board = Board::new(pieces);

    let castle = board
        .get_moves_from(pos(4, 0))
        .unwrap()
        .into_iter()
        .find(|m| m.effect.is_some())
        .unwrap();
    board.execute_move(castle);

    for piece in board.get_pieces().iter() {
        assert!(piece.was_moved());
    }
}

#[test]
fn ray_stops_at_first_blocker() {
    // A friendly blocker is excluded, a hostile one is included as a capture.
    let pieces: Vec<Piece> = vec![
        Piece::Rook(Rook::new(Color::White, pos(0, 0))),
        Piece::Pawn(Pawn::new(Color::White, pos(0, 2))),
        Piece::Pawn(Pawn::new(Color::Black, pos(3, 0))),
        Piece::Pawn(Pawn::new(Color::Black, pos(0, 5))),
    ];
    let board = Board::new(pieces);

    let moves = board.get_moves_from(pos(0, 0)).unwrap();
    let mut destinations: Vec<(i8, i8)> = moves
        .iter()
        .map(|m| (m.destination.x.0, m.destination.y.0))
        .collect();
    destinations.sort();
    // Upward: only (0,1); the friendly pawn on (0,2) blocks, excluded, and
    // (0,5) is never reached. Rightward: (1,0), (2,0) and the hostile pawn
    // on (3,0), included.
    assert_eq!(destinations, vec![(0, 1), (1, 0), (2, 0), (3, 0)]);
    for mov in moves.iter() {
        if mov.destination == pos(3, 0) {
            assert!(matches!(mov.effect, Some(Effect::Capture)));
        } else {
            assert!(mov.effect.is_none());
        }
    }
}

#[test]
fn black_pawn_promotes_on_bottom_rank() {
    let pieces: Vec<Piece> = vec![
        Piece::Pawn(Pawn::new(Color::White, pos(7, 3))),
        Piece::Pawn(Pawn::new(Color::Black, pos(0, 1))),
    ];
    let mut board = Board::new(pieces);

    // White moves first; then the Black pawn advances onto the bottom rank.
    let white_move = board.get_moves_from(pos(7, 3)).unwrap()[0];
    board.execute_move(white_move);

    let mut promotion = board.get_moves_from(pos(0, 1)).unwrap()[0];
    assert_eq!(promotion.destination, pos(0, 0));
    assert!(matches!(promotion.effect, Some(Effect::Promotion(None))));

    promotion.effect = Some(Effect::Promotion(Some(ChoiceOfPromotablePiece::Knight)));
    board.execute_move(promotion);

    let promoted = board
        .get_pieces()
        .iter()
        .find(|p| p.get_color() == Color::Black)
        .unwrap();
    assert_eq!(promoted.get_type(), PieceType::Knight);
    assert_eq!(promoted.get_position(), pos(0, 0));
    assert!(!promoted.was_moved());
}

#[test]
fn query_fails_off_piece_or_off_turn() {
    let board = Board::default();
    // An empty square yields no moves.
    assert!(board.get_moves_from(pos(4, 4)).is_none());
    // A Black piece cannot be queried while it is White's turn.
    assert!(board.get_moves_from(pos(0, 7)).is_none());
}

#[test]
fn default_board_is_the_standard_position() {
    let board = Board::default();
    assert_eq!(board.get_pieces().len(), 32);
    assert_eq!(board.get_turn(), Color::White);
    let white_rooks = board.find_pieces(Some(PieceType::Rook), Some(Color::White));
    assert_eq!(white_rooks.len(), 2);
    assert_eq!(white_rooks[0].get_position(), pos(0, 0));
    assert_eq!(white_rooks[1].get_position(), pos(7, 0));
    let kings = board.find_pieces(Some(PieceType::King), None);
    assert_eq!(kings.len(), 2);
    let blacks = board.find_pieces(None, Some(Color::Black));
    assert_eq!(blacks.len(), 16);
}

#[test]
fn capture_piece_clears_exactly_that_square() {
    let pieces: Vec<Piece> = vec![
        Piece::Queen(Queen::new(Color::White, pos(3, 3))),
        Piece::Pawn(Pawn::new(Color::Black, pos(5, 5))),
    ];
    let mut board = Board::new(pieces);

    board.capture_piece(pos(5, 5));
    assert_eq!(board.get_pieces().len(), 1);
    assert_eq!(board.get_pieces()[0].get_type(), PieceType::Queen);

    // Clearing an empty square removes nothing.
    board.capture_piece(pos(0, 0));
    assert_eq!(board.get_pieces().len(), 1);
}

#[test]
fn blocked_pawn_cannot_advance() {
    let pieces: Vec<Piece> = vec![
        Piece::Pawn(Pawn::new(Color::White, pos(2, 2))),
        Piece::Pawn(Pawn::new(Color::Black, pos(2, 3))),
    ];
    let board = Board::new(pieces);

    // Any piece blocks the forward square; a pawn cannot capture straight
    // ahead, so no moves remain.
    let moves = board.get_moves_from(pos(2, 2)).unwrap();
    assert_eq!(moves.len(), 0);
}

#[test]
fn pawn_captures_only_diagonally_forward() {
    let pieces: Vec<Piece> = vec![
        Piece::Pawn(Pawn::new(Color::White, pos(3, 3))),
        Piece::Pawn(Pawn::new(Color::Black, pos(2, 4))),
        Piece::Pawn(Pawn::new(Color::Black, pos(4, 4))),
        Piece::Pawn(Pawn::new(Color::Black, pos(3, 5))),
    ];
    let board = Board::new(pieces);

    let moves = board.get_moves_from(pos(3, 3)).unwrap();
    // Forward to (3,4), capture on (2,4) and on (4,4).
    assert_eq!(moves.len(), 3);
    let captures: Vec<Position> = moves
        .iter()
        .filter(|m| m.effect.is_some())
        .map(|m| m.destination)
        .collect();
    assert_eq!(captures.len(), 2);
    assert!(captures.contains(&pos(2, 4)));
    assert!(captures.contains(&pos(4, 4)));
}
