//! A chess rules engine: a `Board` owns the pieces and the turn, computes the
//! legal destination squares for a piece, and applies a chosen move together
//! with its side effect (capture, castling, pawn promotion).
//!
//! Out of scope, as in the rules this engine implements: check and checkmate
//! detection, en passant, and the pawn's initial two-square move.

pub mod board;
pub mod piece;
pub mod pieces;

pub use board::Board;
pub use piece::ChoiceOfPromotablePiece;
pub use piece::Color;
pub use piece::Effect;
pub use piece::Move;
pub use piece::Piece;
pub use piece::PieceType;
pub use piece::Position;
pub use piece::XAxis;
pub use piece::YAxis;
pub use pieces::Bishop;
pub use pieces::King;
pub use pieces::Knight;
pub use pieces::Pawn;
pub use pieces::Queen;
pub use pieces::Rook;
