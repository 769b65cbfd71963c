use board::Board;
use board::ChoiceOfPromotablePiece;
use board::Color;
use board::Effect;
use board::Piece;
use board::PieceType;
use board::Position;
use board::XAxis;
use board::YAxis;
use board::Bishop;
use board::King;
use board::Knight;
use board::Pawn;
use board::Queen;
use board::Rook;

fn pos(x: i8, y: i8) -> Position {
    Position::new(XAxis::new(x), YAxis::new(y))
}

#[test]
fn promotion_test() {
    let pieces: Vec<Piece> = vec![Piece::Pawn(Pawn::new(Color::White, pos(0, 6)))];
    let mut board = Board::new(pieces);

    let mut mov = board
        .get_moves_from(pos(0, 6))
        .unwrap()
        .into_iter()
        .nth(0)
        .unwrap();

    mov.effect = Some(Effect::Promotion(Some(ChoiceOfPromotablePiece::Queen)));

    board.execute_move(mov);

    let result = board.get_pieces().iter().nth(0).unwrap();
    assert_eq!(result.get_color(), Color::White);
    assert_eq!(result.get_position(), pos(0, 7));
    assert_eq!(result.get_type(), PieceType::Queen);
}

#[test]
fn capture_test() {
    let pieces: Vec<Piece> = vec![
        Piece::Pawn(Pawn::new(Color::White, pos(0, 1))),
        Piece::Pawn(Pawn::new(Color::Black, pos(1, 2))),
    ];
    let mut board = Board::new(pieces);

    assert_eq!(board.get_pieces().len(), 2);

    let mov = board
        .get_moves_from(pos(0, 1))
        .unwrap()
        .into_iter()
        .filter(|mov| mov.effect.is_some())
        .nth(0)
        .unwrap();

    board.execute_move(mov);

    assert_eq!(board.get_pieces().len(), 1);

    let result = board.get_pieces().iter().nth(0).unwrap();
    assert_eq!(result.get_color(), Color::White);
    assert_eq!(result.get_position(), pos(1, 2));
    assert_eq!(result.get_type(), PieceType::Pawn);
}

#[test]
fn castling_king_side_test() {
    let pieces: Vec<Piece> = vec![
        Piece::Rook(Rook::new(Color::White, pos(7, 0))),
        Piece::King(King::new(Color::White, pos(4, 0))),
    ];
    let mut board = Board::new(pieces);
    let mov = board
        .get_moves_from(pos(7, 0))
        .unwrap()
        .into_iter()
        .filter(|mov| mov.effect.is_some())
        .nth(0)
        .unwrap();

    board.execute_move(mov);

    assert_eq!(board.get_pieces().len(), 2);

    let king = board
        .get_pieces()
        .iter()
        .filter(|piece| piece.get_type() == PieceType::King)
        .nth(0)
        .unwrap();

    assert_eq!(king.get_color(), Color::White);
    assert_eq!(king.get_position(), pos(6, 0));

    let rook = board
        .get_pieces()
        .iter()
        .filter(|piece| piece.get_type() == PieceType::Rook)
        .nth(0)
        .unwrap();

    assert_eq!(rook.get_color(), Color::White);
    assert_eq!(rook.get_position(), pos(5, 0));
}

#[test]
fn castling_queen_side_test() {
    let pieces: Vec<Piece> = vec![
        Piece::Rook(Rook::new(Color::White, pos(0, 0))),
        Piece::King(King::new(Color::White, pos(4, 0))),
    ];
    let mut board = Board::new(pieces);
    let mov = board
        .get_moves_from(pos(0, 0))
        .unwrap()
        .into_iter()
        .filter(|mov| mov.effect.is_some())
        .nth(0)
        .unwrap();

    board.execute_move(mov);

    assert_eq!(board.get_pieces().len(), 2);

    let king = board
        .get_pieces()
        .iter()
        .filter(|piece| piece.get_type() == PieceType::King)
        .nth(0)
        .unwrap();

    assert_eq!(king.get_color(), Color::White);
    assert_eq!(king.get_position(), pos(2, 0));

    let rook = board
        .get_pieces()
        .iter()
        .filter(|piece| piece.get_type() == PieceType::Rook)
        .nth(0)
        .unwrap();

    assert_eq!(rook.get_color(), Color::White);
    assert_eq!(rook.get_position(), pos(3, 0));
}

#[test]
fn castling_queen_side_from_king_test() {
    let pieces: Vec<Piece> = vec![
        Piece::Rook(Rook::new(Color::White, pos(0, 0))),
        Piece::Rook(Rook::new(Color::White, pos(7, 0))),
        Piece::King(King::new(Color::White, pos(4, 0))),
    ];
    let mut board = Board::new(pieces);
    let moves: Vec<_> = board
        .get_moves_from(pos(4, 0))
        .unwrap()
        .into_iter()
        .filter(|mov| mov.effect.is_some())
        .collect();

    assert_eq!(moves.len(), 2);

    let queen_rook_move = moves
        .into_iter()
        .filter(|mov| match mov.effect {
            Some(Effect::Castling { origin, .. }) => origin == pos(0, 0),
            _ => false,
        })
        .nth(0)
        .unwrap();

    board.execute_move(queen_rook_move);

    assert_eq!(board.get_pieces().len(), 3);

    let king = board
        .get_pieces()
        .iter()
        .filter(|piece| piece.get_type() == PieceType::King)
        .nth(0)
        .unwrap();

    assert_eq!(king.get_color(), Color::White);
    assert_eq!(king.get_position(), pos(2, 0));

    let rook = board
        .get_pieces()
        .iter()
        .filter(|piece| piece.get_type() == PieceType::Rook)
        .nth(0)
        .unwrap();

    assert_eq!(rook.get_color(), Color::White);
    assert_eq!(rook.get_position(), pos(3, 0));
}

#[test]
fn castling_king_side_from_king_test() {
    let pieces: Vec<Piece> = vec![
        Piece::Rook(Rook::new(Color::White, pos(0, 0))),
        Piece::Rook(Rook::new(Color::White, pos(7, 0))),
        Piece::King(King::new(Color::White, pos(4, 0))),
    ];
    let mut board = Board::new(pieces);
    let moves: Vec<_> = board
        .get_moves_from(pos(4, 0))
        .unwrap()
        .into_iter()
        .filter(|mov| mov.effect.is_some())
        .collect();

    assert_eq!(moves.len(), 2);
    let king_rook_move = moves
        .into_iter()
        .filter(|mov| match mov.effect {
            Some(Effect::Castling { origin, .. }) => origin == pos(7, 0),
            _ => false,
        })
        .nth(0)
        .unwrap();

    board.execute_move(king_rook_move);

    assert_eq!(board.get_pieces().len(), 3);

    let king = board
        .get_pieces()
        .iter()
        .filter(|piece| piece.get_type() == PieceType::King)
        .nth(0)
        .unwrap();

    assert_eq!(king.get_color(), Color::White);
    assert_eq!(king.get_position(), pos(6, 0));

    let rook = board
        .get_pieces()
        .iter()
        .filter(|piece| piece.get_type() == PieceType::Rook)
        .nth(1)
        .unwrap();

    assert_eq!(rook.get_color(), Color::White);
    assert_eq!(rook.get_position(), pos(5, 0));
}

#[test]
fn movements_within_bounds_test() {
    let pieces: Vec<Piece> = vec![Piece::Queen(Queen::new(Color::White, pos(0, 0)))];
    let board = Board::new(pieces);

    let moves: Vec<_> = board.get_moves_from(pos(0, 0)).unwrap();

    for mov in moves {
        let destination = mov.destination;
        assert!(destination.x.0 >= 0);
        assert!(destination.y.0 >= 0);
    }
}

#[test]
fn check_movements_covered_by_friendly_piece_test() {
    let pieces: Vec<Piece> = vec![
        Piece::Queen(Queen::new(Color::White, pos(0, 0))),
        Piece::Knight(Knight::new(Color::White, pos(1, 0))),
        Piece::Pawn(Pawn::new(Color::White, pos(0, 1))),
        Piece::Pawn(Pawn::new(Color::White, pos(1, 1))),
        Piece::Pawn(Pawn::new(Color::Black, pos(4, 1))),
        Piece::Pawn(Pawn::new(Color::Black, pos(4, 3))),
        Piece::Rook(Rook::new(Color::White, pos(4, 2))),
        Piece::Pawn(Pawn::new(Color::Black, pos(3, 2))),
        Piece::Pawn(Pawn::new(Color::Black, pos(5, 2))),
        Piece::Pawn(Pawn::new(Color::Black, pos(7, 6))),
        Piece::Pawn(Pawn::new(Color::Black, pos(5, 6))),
        Piece::Bishop(Bishop::new(Color::White, pos(6, 5))),
        Piece::Pawn(Pawn::new(Color::Black, pos(7, 4))),
        Piece::Pawn(Pawn::new(Color::Black, pos(5, 4))),
    ];
    let board = Board::new(pieces);

    let moves: Vec<_> = board.get_moves_from(pos(0, 0)).unwrap();

    // The queen is blocked by its own pieces and can't move
    assert_eq!(moves.len(), 0);

    let moves: Vec<_> = board.get_moves_from(pos(4, 2)).unwrap();

    // The rook can only move in places where pawns are available
    assert_eq!(moves.len(), 4);

    let moves: Vec<_> = board.get_moves_from(pos(6, 5)).unwrap();

    // The bishop can only move in places where pawns are available
    assert_eq!(moves.len(), 4);
}

#[test]
fn check_castling_covered_by_pieces_test() {
    let pieces: Vec<Piece> = vec![
        Piece::Pawn(Pawn::new(Color::White, pos(0, 6))),
        Piece::Pawn(Pawn::new(Color::White, pos(1, 6))),
        Piece::Pawn(Pawn::new(Color::White, pos(2, 6))),
        Piece::Pawn(Pawn::new(Color::White, pos(3, 6))),
        Piece::Pawn(Pawn::new(Color::White, pos(4, 6))),
        Piece::Pawn(Pawn::new(Color::White, pos(5, 6))),
        Piece::Pawn(Pawn::new(Color::White, pos(6, 6))),
        Piece::Pawn(Pawn::new(Color::White, pos(7, 6))),
        Piece::Rook(Rook::new(Color::White, pos(0, 7))),
        Piece::Knight(Knight::new(Color::White, pos(1, 7))),
        Piece::Bishop(Bishop::new(Color::White, pos(2, 7))),
        Piece::Queen(Queen::new(Color::White, pos(3, 7))),
        Piece::King(King::new(Color::White, pos(4, 7))),
        Piece::Bishop(Bishop::new(Color::White, pos(5, 7))),
        Piece::Knight(Knight::new(Color::White, pos(6, 7))),
        Piece::Rook(Rook::new(Color::White, pos(7, 7))),
    ];

    let board = Board::new(pieces);

    let moves: Vec<_> = board.get_moves_from(pos(4, 7)).unwrap();

    // The king can't castle when the positions are covered by other pieces
    assert_eq!(moves.len(), 0);

    let moves: Vec<_> = board.get_moves_from(pos(0, 7)).unwrap();

    // The left rook can't either
    assert_eq!(moves.len(), 0);

    let moves: Vec<_> = board.get_moves_from(pos(7, 7)).unwrap();

    // The right rook can't either
    assert_eq!(moves.len(), 0);
}

#[test]
fn pawn_initial_2_positions_test() {
    let pieces: Vec<Piece> = vec![Piece::Pawn(Pawn::new(Color::White, pos(0, 1)))];
    let board = Board::new(pieces);

    // No initial two-square move: the pawn advances one square only.
    let moves: Vec<_> = board.get_moves_from(pos(0, 1)).unwrap();
    assert_eq!(moves.len(), 1);
}
