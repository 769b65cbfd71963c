//! The six piece variants. Each owns its colour and position; the rook, the
//! king and the pawn also remember whether they have moved, which gates
//! castling eligibility.

mod bishop;
mod king;
mod knight;
mod pawn;
mod queen;
mod rook;

pub use bishop::Bishop;
pub use bishop::bishop_moves;
pub use bishop::lemma_bishop_moves_executable;
pub use bishop::lemma_bishop_moves_inside;
pub use king::lemma_king_moves_executable;
pub use king::lemma_king_moves_inside;
pub use knight::lemma_knight_moves_executable;
pub use knight::lemma_knight_moves_inside;
pub use pawn::lemma_pawn_moves_executable;
pub use pawn::lemma_pawn_moves_inside;
pub use queen::lemma_queen_moves_executable;
pub use queen::lemma_queen_moves_inside;
pub use rook::lemma_rook_moves_executable;
pub use rook::lemma_rook_moves_inside;
pub use king::King;
pub use king::king_castle_with;
pub use king::king_castles;
pub use king::king_castles_upto;
pub use king::king_moves;
pub use knight::Knight;
pub use knight::knight_moves;
pub use knight::knight_step;
pub use pawn::Pawn;
pub use pawn::far_rank;
pub use pawn::pawn_attack;
pub use pawn::pawn_dir;
pub use pawn::pawn_forward_moves;
pub use pawn::pawn_moves;
pub use queen::Queen;
pub use queen::queen_moves;
pub use rook::Rook;
pub use rook::rook_castles;
pub use rook::rook_moves;
