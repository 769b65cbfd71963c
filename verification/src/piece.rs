//! The value types of the engine: colors, piece kinds, board coordinates,
//! moves and their side effects.

use vstd::prelude::*;

use crate::pieces::Bishop;
use crate::pieces::King;
use crate::pieces::Knight;
use crate::pieces::Pawn;
use crate::pieces::Queen;
use crate::pieces::Rook;

verus! {

/// The two sides of the game. A board's `turn` is always one of these and
/// flips to the opposite after every executed move.
#[derive(Clone, Copy, PartialEq, Eq, Structural, Debug)]
pub enum Color {
    Black,
    White,
}

impl Color {
    /// The other side.
    pub open spec fn spec_opposite(self) -> Color {
        match self {
            Color::Black => Color::White,
            Color::White => Color::Black,
        }
    }

    /// The other side.
    pub fn opposite(self) -> (r: Color)
        ensures
            r == self.spec_opposite(),
    {
        match self {
            Color::Black => Color::White,
            Color::White => Color::Black,
        }
    }
}

/// The classification of a piece; it carries no behaviour of its own.
#[derive(Clone, Copy, PartialEq, Eq, Structural, Debug)]
pub enum PieceType {
    Bishop,
    King,
    Knight,
    Pawn,
    Queen,
    Rook,
}

/// What a pawn may become on reaching the far rank.
#[derive(Clone, Copy, PartialEq, Eq, Structural, Debug)]
pub enum ChoiceOfPromotablePiece {
    Bishop,
    Knight,
    Queen,
    Rook,
}

/// A coordinate on the horizontal axis (the file), 0 through 7 on a board.
#[derive(Clone, Copy, PartialEq, Eq, Structural, Debug)]
pub struct XAxis(pub i8);

impl XAxis {
    pub fn new(x: i8) -> (r: Self)
        ensures
            r.0 == x,
    {
        XAxis(x)
    }
}

/// A coordinate on the vertical axis (the rank), 0 through 7 on a board.
#[derive(Clone, Copy, PartialEq, Eq, Structural, Debug)]
pub struct YAxis(pub i8);

impl YAxis {
    pub fn new(x: i8) -> (r: Self)
        ensures
            r.0 == x,
    {
        YAxis(x)
    }
}

/// A square of the board, as a pair of axis coordinates.
#[derive(Clone, Copy, PartialEq, Eq, Structural, Debug)]
pub struct Position {
    pub x: XAxis,
    pub y: YAxis,
}

/// The position reached from `p` by moving `dx` files and `dy` ranks.
pub open spec fn shifted(p: Position, dx: int, dy: int) -> Position {
    Position { x: XAxis((p.x.0 + dx) as i8), y: YAxis((p.y.0 + dy) as i8) }
}

impl Position {
    pub fn new(x: XAxis, y: YAxis) -> (r: Self)
        ensures
            r.x == x && r.y == y,
    {
        Self { x, y }
    }

    pub fn add_y(self, y_axis: YAxis) -> (r: Self)
        requires
            -128 <= self.y.0 + y_axis.0 <= 127,
        ensures
            r.x == self.x && r.y.0 == self.y.0 + y_axis.0,
    {
        Position { x: self.x, y: YAxis(self.y.0 + y_axis.0) }
    }

    pub fn sub_y(self, y_axis: YAxis) -> (r: Self)
        requires
            -128 <= self.y.0 - y_axis.0 <= 127,
        ensures
            r.x == self.x && r.y.0 == self.y.0 - y_axis.0,
    {
        Position { x: self.x, y: YAxis(self.y.0 - y_axis.0) }
    }

    pub fn add_x(self, x_axis: XAxis) -> (r: Self)
        requires
            -128 <= self.x.0 + x_axis.0 <= 127,
        ensures
            r.x.0 == self.x.0 + x_axis.0 && r.y == self.y,
    {
        Position { x: XAxis(self.x.0 + x_axis.0), y: self.y }
    }

    pub fn sub_x(self, x_axis: XAxis) -> (r: Self)
        requires
            -128 <= self.x.0 - x_axis.0 <= 127,
        ensures
            r.x.0 == self.x.0 - x_axis.0 && r.y == self.y,
    {
        Position { x: XAxis(self.x.0 - x_axis.0), y: self.y }
    }

    /// The column of squares from `start` up to `end` inclusive, at the
    /// starting file.
    pub fn vertical_range(start: &Position, end: &Position) -> (r: VerticalRange)
        requires
            start.y.0 < end.y.0,
        ensures
            r.0@.len() == end.y.0 - start.y.0 + 1,
            forall|k: int|
                0 <= k < r.0@.len() ==> r.0@[k] == (Position {
                    x: start.x,
                    y: YAxis((start.y.0 + k) as i8),
                }),
    {
        let n: i16 = end.y.0 as i16 - start.y.0 as i16;
        let mut out: Vec<Position> = Vec::new();
        let mut i: i16 = 0;
        while i <= n
            invariant
                n == end.y.0 - start.y.0,
                start.y.0 < end.y.0,
                0 <= i <= n + 1,
                out@.len() == i,
                forall|k: int|
                    0 <= k < i ==> out@[k] == (Position {
                        x: start.x,
                        y: YAxis((start.y.0 + k) as i8),
                    }),
            decreases n + 1 - i,
        {
            out.push(Position { x: start.x, y: YAxis((start.y.0 as i16 + i) as i8) });
            i = i + 1;
        }
        VerticalRange(out)
    }

    /// The row of squares from `start` up to `end` inclusive, at the
    /// starting rank.
    pub fn horizontal_range(start: &Position, end: &Position) -> (r: HorizontalRange)
        requires
            start.x.0 < end.x.0,
        ensures
            r.0@.len() == end.x.0 - start.x.0 + 1,
            forall|k: int|
                0 <= k < r.0@.len() ==> r.0@[k] == (Position {
                    x: XAxis((start.x.0 + k) as i8),
                    y: start.y,
                }),
    {
        let n: i16 = end.x.0 as i16 - start.x.0 as i16;
        let mut out: Vec<Position> = Vec::new();
        let mut i: i16 = 0;
        while i <= n
            invariant
                n == end.x.0 - start.x.0,
                start.x.0 < end.x.0,
                0 <= i <= n + 1,
                out@.len() == i,
                forall|k: int|
                    0 <= k < i ==> out@[k] == (Position {
                        x: XAxis((start.x.0 + k) as i8),
                        y: start.y,
                    }),
            decreases n + 1 - i,
        {
            out.push(Position { x: XAxis((start.x.0 as i16 + i) as i8), y: start.y });
            i = i + 1;
        }
        HorizontalRange(out)
    }
}

/// The lower-left corner of the board.
pub struct BottomLeft(pub Position);

/// The lower-right corner of the board.
pub struct BottomRight(pub Position);

/// The upper-left corner of the board.
pub struct UpperLeft(pub Position);

/// The upper-right corner of the board.
pub struct UpperRight(pub Position);

/// The squares a ray walk found along one board direction (fixed file,
/// walking the ranks up and then down).
pub struct HorizontalRange(pub Vec<Position>);

/// The squares a ray walk found along the other board direction (fixed rank,
/// walking the files down and then up).
pub struct VerticalRange(pub Vec<Position>);

/// Squares in the form of a plus symbol: a horizontal and a vertical range
/// joined.
pub struct PlusRange(pub Vec<Position>);

/// Squares along the four diagonals.
pub struct DiagonalRange(pub Vec<Position>);

/// Squares in the form of a star: a diagonal and a plus range joined.
pub struct StarRange(pub Vec<Position>);

impl PlusRange {
    pub fn from(horizontal: HorizontalRange, vertical: VerticalRange) -> (r: Self)
        ensures
            r.0@ == horizontal.0@ + vertical.0@,
    {
        let mut pos = horizontal.0;
        let mut rest = vertical.0;
        pos.append(&mut rest);
        PlusRange(pos)
    }
}

impl StarRange {
    pub fn from(diagonal: DiagonalRange, plus: PlusRange) -> (r: Self)
        ensures
            r.0@ == diagonal.0@ + plus.0@,
    {
        let mut pos = diagonal.0;
        let mut rest = plus.0;
        pos.append(&mut rest);
        StarRange(pos)
    }
}

/// The side payload of a move, beyond the relocation of the moving piece.
#[derive(Clone, Copy, PartialEq, Eq, Debug)]
pub enum Effect {
    /// An opposing piece occupies the destination and is removed.
    Capture,
    /// A king and a rook castle: the counterpart piece standing at `origin`
    /// moves to `destination` as part of the same move.
    Castling { origin: Position, destination: Position },
    /// The moving pawn becomes the chosen piece. `None` means the choice has
    /// not been made yet; it must be resolved before the move is executed.
    Promotion(Option<ChoiceOfPromotablePiece>),
}

/// One fully specified candidate move: where the moving piece stands, where
/// it ends up, and any side effect. `effect` is `None` for a quiet move.
#[derive(Clone, Copy, PartialEq, Eq, Debug)]
pub struct Move {
    pub origin: Position,
    pub destination: Position,
    pub effect: Option<Effect>,
}

impl Move {
    pub fn new(origin: Position, destination: Position, effect: Option<Effect>) -> (r: Self)
        ensures
            r.origin == origin && r.destination == destination && r.effect == effect,
    {
        Self { origin, destination, effect }
    }
}

/// `mov` with an open promotion choice resolved to `ch`; any other move
/// stays as it is.
pub open spec fn with_promotion_choice(mov: Move, ch: ChoiceOfPromotablePiece) -> Move {
    if mov.effect == Some(Effect::Promotion(None)) {
        Move {
            origin: mov.origin,
            destination: mov.destination,
            effect: Some(Effect::Promotion(Some(ch))),
        }
    } else {
        mov
    }
}

/// The candidate moves of `pc` against the board `b`, by its kind.
pub open spec fn piece_moves(b: crate::board::Board, pc: Piece) -> Seq<Move> {
    match pc {
        Piece::Bishop(p) => crate::pieces::bishop_moves(b, p),
        Piece::King(p) => crate::pieces::king_moves(b, p),
        Piece::Knight(p) => crate::pieces::knight_moves(b, p),
        Piece::Pawn(p) => crate::pieces::pawn_moves(b, p),
        Piece::Queen(p) => crate::pieces::queen_moves(b, p),
        Piece::Rook(p) => crate::pieces::rook_moves(b, p),
    }
}

/// Any piece on the board: a closed set of six variants, one per
/// `PieceType`. The board owns exactly one `Piece` value per occupied square.
#[derive(Clone, Copy, PartialEq, Eq, Structural, Debug)]
pub enum Piece {
    Bishop(Bishop),
    King(King),
    Knight(Knight),
    Pawn(Pawn),
    Queen(Queen),
    Rook(Rook),
}

impl Piece {
    /// The side this piece belongs to.
    pub open spec fn color(self) -> Color {
        match self {
            Piece::Bishop(p) => p.color,
            Piece::King(p) => p.color,
            Piece::Knight(p) => p.color,
            Piece::Pawn(p) => p.color,
            Piece::Queen(p) => p.color,
            Piece::Rook(p) => p.color,
        }
    }

    /// The square this piece stands on.
    pub open spec fn position(self) -> Position {
        match self {
            Piece::Bishop(p) => p.position,
            Piece::King(p) => p.position,
            Piece::Knight(p) => p.position,
            Piece::Pawn(p) => p.position,
            Piece::Queen(p) => p.position,
            Piece::Rook(p) => p.position,
        }
    }

    /// The classification of this piece.
    pub open spec fn kind(self) -> PieceType {
        match self {
            Piece::Bishop(_) => PieceType::Bishop,
            Piece::King(_) => PieceType::King,
            Piece::Knight(_) => PieceType::Knight,
            Piece::Pawn(_) => PieceType::Pawn,
            Piece::Queen(_) => PieceType::Queen,
            Piece::Rook(_) => PieceType::Rook,
        }
    }

    /// Whether this piece has moved. Only the rook, the king and the pawn
    /// carry the flag; for the other kinds it is always false.
    pub open spec fn has_moved(self) -> bool {
        match self {
            Piece::King(p) => p.already_moved,
            Piece::Pawn(p) => p.already_moved,
            Piece::Rook(p) => p.already_moved,
            _ => false,
        }
    }

    /// The piece after a relocation to `destination`: the position is
    /// replaced, and a rook, king or pawn is marked as having moved.
    pub open spec fn relocated(self, destination: Position) -> Piece {
        match self {
            Piece::Bishop(p) => Piece::Bishop(Bishop { position: destination, ..p }),
            Piece::King(p) => Piece::King(
                King { position: destination, already_moved: true, ..p },
            ),
            Piece::Knight(p) => Piece::Knight(Knight { position: destination, ..p }),
            Piece::Pawn(p) => Piece::Pawn(
                Pawn { position: destination, already_moved: true, ..p },
            ),
            Piece::Queen(p) => Piece::Queen(Queen { position: destination, ..p }),
            Piece::Rook(p) => Piece::Rook(
                Rook { position: destination, already_moved: true, ..p },
            ),
        }
    }

    pub fn get_color(&self) -> (r: Color)
        ensures
            r == self.color(),
    {
        match self {
            Piece::Bishop(p) => p.color,
            Piece::King(p) => p.color,
            Piece::Knight(p) => p.color,
            Piece::Pawn(p) => p.color,
            Piece::Queen(p) => p.color,
            Piece::Rook(p) => p.color,
        }
    }

    pub fn get_position(&self) -> (r: Position)
        ensures
            r == self.position(),
    {
        match self {
            Piece::Bishop(p) => p.position,
            Piece::King(p) => p.position,
            Piece::Knight(p) => p.position,
            Piece::Pawn(p) => p.position,
            Piece::Queen(p) => p.position,
            Piece::Rook(p) => p.position,
        }
    }

    pub fn get_type(&self) -> (r: PieceType)
        ensures
            r == self.kind(),
    {
        match self {
            Piece::Bishop(_) => PieceType::Bishop,
            Piece::King(_) => PieceType::King,
            Piece::Knight(_) => PieceType::Knight,
            Piece::Pawn(_) => PieceType::Pawn,
            Piece::Queen(_) => PieceType::Queen,
            Piece::Rook(_) => PieceType::Rook,
        }
    }

    pub fn was_moved(&self) -> (r: bool)
        ensures
            r == self.has_moved(),
    {
        match self {
            Piece::King(p) => p.already_moved,
            Piece::Pawn(p) => p.already_moved,
            Piece::Rook(p) => p.already_moved,
            Piece::Bishop(_) => false,
            Piece::Knight(_) => false,
            Piece::Queen(_) => false,
        }
    }

    /// Enumerates this piece's candidate moves against `board`, by its kind.
    pub fn available_positions(&self, board: &crate::board::Board) -> (r: Vec<Move>)
        requires
            board.wf(),
            board.inside(self.position()),
        ensures
            r@ == piece_moves(*board, *self),
    {
        match self {
            Piece::Bishop(p) => p.available_positions(board),
            Piece::King(p) => p.available_positions(board),
            Piece::Knight(p) => p.available_positions(board),
            Piece::Pawn(p) => p.available_positions(board),
            Piece::Queen(p) => p.available_positions(board),
            Piece::Rook(p) => p.available_positions(board),
        }
    }

    /// Relocate this piece to `destination`, marking a rook, king or pawn as
    /// having moved.
    pub fn move_to(&mut self, destination: Position)
        ensures
            *final(self) == old(self).relocated(destination),
    {
        match self {
            Piece::Bishop(p) => p.position = destination,
            Piece::King(p) => {
                p.position = destination;
                p.already_moved = true;
            },
            Piece::Knight(p) => p.position = destination,
            Piece::Pawn(p) => {
                p.position = destination;
                p.already_moved = true;
            },
            Piece::Queen(p) => p.position = destination,
            Piece::Rook(p) => {
                p.position = destination;
                p.already_moved = true;
            },
        }
    }
}

} // verus!
