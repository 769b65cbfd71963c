//! The board: it owns every piece and the turn, casts the rays that the
//! sliding pieces share, answers move queries, and executes a chosen move.

use vstd::prelude::*;

use crate::piece::BottomLeft;
use crate::piece::BottomRight;
use crate::piece::ChoiceOfPromotablePiece;
use crate::piece::Color;
use crate::piece::DiagonalRange;
use crate::piece::Effect;
use crate::piece::HorizontalRange;
use crate::piece::Move;
use crate::piece::Piece;
use crate::piece::PieceType;
use crate::piece::Position;
use crate::piece::UpperLeft;
use crate::piece::UpperRight;
use crate::piece::VerticalRange;
use crate::piece::XAxis;
use crate::piece::YAxis;
use crate::pieces::Bishop;
use crate::pieces::King;
use crate::pieces::Knight;
use crate::pieces::Pawn;
use crate::pieces::Queen;
use crate::pieces::Rook;

verus! {

/// Every piece of `s` stands inside the 8x8 board.
pub open spec fn all_inside(s: Seq<Piece>) -> bool {
    forall|i: int|
        0 <= i < s.len() ==> 0 <= (#[trigger] s[i]).position().x.0 <= 7 && 0 <= s[i].position().y.0
            <= 7
}

/// No two pieces of `s` stand on the same square.
pub open spec fn positions_distinct(s: Seq<Piece>) -> bool {
    forall|i: int, j: int|
        0 <= i < j < s.len() ==> (#[trigger] s[i]).position() != (#[trigger] s[j]).position()
}

/// At most one king of each colour stands in `s`.
pub open spec fn kings_unique(s: Seq<Piece>) -> bool {
    forall|i: int, j: int|
        0 <= i < j < s.len() && (#[trigger] s[i]).kind() == PieceType::King && (
        #[trigger] s[j]).kind() == PieceType::King ==> s[i].color() != s[j].color()
}

/// The board: the pieces, the fixed dimensions, and whose turn it is.
pub struct Board {
    pub pieces: Vec<Piece>,
    pub dimensions: (XAxis, YAxis),
    pub turn: Color,
}

impl Board {
    /// The standing invariant of a board: fixed 8x8 dimensions, every piece
    /// inside, positions pairwise distinct, and at most one king per colour.
    pub open spec fn wf(self) -> bool {
        &&& self.dimensions.0.0 == 7
        &&& self.dimensions.1.0 == 7
        &&& all_inside(self.pieces@)
        &&& positions_distinct(self.pieces@)
        &&& kings_unique(self.pieces@)
    }

    /// Whether `p` lies within this board's bounds.
    pub open spec fn inside(self, p: Position) -> bool {
        0 <= p.x.0 <= self.dimensions.0.0 && 0 <= p.y.0 <= self.dimensions.1.0
    }

    /// Some piece stands on `p`.
    pub open spec fn occupied(self, p: Position) -> bool {
        exists|i: int| 0 <= i < self.pieces@.len() && (#[trigger] self.pieces@[i]).position() == p
    }

    /// A piece of colour `c` stands on `p`.
    pub open spec fn occupied_by(self, p: Position, c: Color) -> bool {
        exists|i: int|
            0 <= i < self.pieces@.len() && (#[trigger] self.pieces@[i]).position() == p
                && self.pieces@[i].color() == c
    }

    /// The index of the piece standing on `p`; meaningful when `occupied(p)`
    /// holds, and unique under `wf`.
    pub open spec fn index_at(self, p: Position) -> int {
        choose|i: int| 0 <= i < self.pieces@.len() && (#[trigger] self.pieces@[i]).position() == p
    }

    /// The piece standing on `p`; meaningful when `occupied(p)` holds.
    pub open spec fn piece_at(self, p: Position) -> Piece {
        self.pieces@[self.index_at(p)]
    }

    /// Under `wf`, the piece on a square is unique: any index holding `p`
    /// is `index_at(p)`.
    pub proof fn lemma_index_at_unique(self, p: Position, i: int)
        requires
            self.wf(),
            0 <= i < self.pieces@.len(),
            self.pieces@[i].position() == p,
        ensures
            self.index_at(p) == i,
            self.piece_at(p) == self.pieces@[i],
            self.occupied(p),
    {
        assert(self.occupied(p));
        let j = self.index_at(p);
        if i < j {
            assert(self.pieces@[i].position() != self.pieces@[j].position());
        } else if j < i {
            assert(self.pieces@[j].position() != self.pieces@[i].position());
        }
    }

    /// Under `wf`, two colours on one square coincide.
    pub proof fn lemma_color_at_unique(self, p: Position, c1: Color, c2: Color)
        requires
            self.wf(),
            self.occupied_by(p, c1),
            self.occupied_by(p, c2),
        ensures
            c1 == c2,
    {
        let i = choose|i: int|
            0 <= i < self.pieces@.len() && (#[trigger] self.pieces@[i]).position() == p
                && self.pieces@[i].color() == c1;
        let j = choose|j: int|
            0 <= j < self.pieces@.len() && (#[trigger] self.pieces@[j]).position() == p
                && self.pieces@[j].color() == c2;
        if i < j {
            assert(self.pieces@[i].position() != self.pieces@[j].position());
        } else if j < i {
            assert(self.pieces@[j].position() != self.pieces@[i].position());
        }
    }

    /// A new board holding exactly `pieces`, with White to move.
    pub fn new(pieces: Vec<Piece>) -> (r: Self)
        requires
            all_inside(pieces@),
            positions_distinct(pieces@),
            kings_unique(pieces@),
        ensures
            r.pieces@ == pieces@,
            r.turn == Color::White,
            r.wf(),
    {
        let dimensions = (XAxis::new(7), YAxis::new(7));
        Board { pieces, dimensions, turn: Color::White }
    }

    pub fn get_turn(&self) -> (r: Color)
        ensures
            r == self.turn,
    {
        self.turn
    }

    /// A read-only view of the pieces, for rendering and for tests.
    pub fn get_pieces(&self) -> (r: &Vec<Piece>)
        ensures
            r@ == self.pieces@,
    {
        &self.pieces
    }

    /// The four corner squares of the board.
    pub fn get_limits(&self) -> (r: (BottomLeft, BottomRight, UpperLeft, UpperRight))
        ensures
            r.0.0 == (Position { x: XAxis(0), y: YAxis(0) }),
            r.1.0 == (Position { x: self.dimensions.0, y: YAxis(0) }),
            r.2.0 == (Position { x: XAxis(0), y: self.dimensions.1 }),
            r.3.0 == (Position { x: self.dimensions.0, y: self.dimensions.1 }),
    {
        let bl = BottomLeft(Position { x: XAxis::new(0), y: YAxis::new(0) });
        let br = BottomRight(Position { x: self.dimensions.0, y: YAxis::new(0) });
        let ul = UpperLeft(Position { x: XAxis::new(0), y: self.dimensions.1 });
        let ur = UpperRight(Position { x: self.dimensions.0, y: self.dimensions.1 });
        (bl, br, ul, ur)
    }

    /// Bounds check against the board's extents.
    pub fn is_inside(&self, pos: &Position) -> (r: bool)
        ensures
            r == self.inside(*pos),
    {
        let (bl, br, ul, _) = self.get_limits();
        let within_x = bl.0.x.0 <= pos.x.0 && pos.x.0 <= br.0.x.0;
        let within_y = bl.0.y.0 <= pos.y.0 && pos.y.0 <= ul.0.y.0;
        within_x && within_y
    }

    /// The colour of the piece standing on `p`, or `None` for an empty
    /// square.
    pub fn color_at(&self, p: Position) -> (r: Option<Color>)
        requires
            self.wf(),
        ensures
            match r {
                Some(c) => self.occupied_by(p, c) && self.occupied(p),
                None => !self.occupied(p),
            },
    {
        let n = self.pieces.len();
        let mut i: usize = 0;
        while i < n
            invariant
                n == self.pieces@.len(),
                i <= n,
                forall|j: int| 0 <= j < i ==> (#[trigger] self.pieces@[j]).position() != p,
            decreases n - i,
        {
            if self.pieces[i].get_position() == p {
                return Some(self.pieces[i].get_color());
            }
            i = i + 1;
        }
        None
    }

    /// Whether any piece stands on `p`.
    pub fn occupied_at(&self, p: Position) -> (r: bool)
        requires
            self.wf(),
        ensures
            r == self.occupied(p),
    {
        self.color_at(p).is_some()
    }

    /// The squares of one straight ray from `cur` in direction `(dx, dy)`,
    /// not counting `cur` itself: one square at a time, stopping at the board
    /// edge, stopping before a friendly piece, and stopping on a hostile
    /// piece, which is included as the last square. `fuel` caps the number of
    /// squares taken.
    pub open spec fn ray(
        self,
        cur: Position,
        dx: int,
        dy: int,
        fuel: nat,
        friendly: Color,
    ) -> Seq<Position>
        decreases fuel,
    {
        if fuel == 0 {
            Seq::empty()
        } else {
            let next = crate::piece::shifted(cur, dx, dy);
            if !self.inside(next) {
                Seq::empty()
            } else if self.occupied_by(next, friendly) {
                Seq::empty()
            } else if self.occupied_by(next, friendly.spec_opposite()) {
                seq![next]
            } else {
                seq![next] + self.ray(next, dx, dy, (fuel - 1) as nat, friendly)
            }
        }
    }

    /// Walks one ray and collects its squares. `limit` caps the number of
    /// squares taken in this direction.
    fn walk_ray(&self, origin: Position, dx: i8, dy: i8, limit: u8, friendly: Color) -> (r: Vec<
        Position,
    >)
        requires
            self.wf(),
            self.inside(origin),
            -1 <= dx <= 1,
            -1 <= dy <= 1,
        ensures
            r@ == self.ray(origin, dx as int, dy as int, limit as nat, friendly),
    {
        let ghost full = self.ray(origin, dx as int, dy as int, limit as nat, friendly);
        let mut out: Vec<Position> = Vec::new();
        let mut current = origin;
        loop
            invariant_except_break
                self.wf(),
                self.inside(current),
                -1 <= dx <= 1,
                -1 <= dy <= 1,
                out@.len() <= limit,
                full == out@ + self.ray(
                    current,
                    dx as int,
                    dy as int,
                    (limit - out@.len()) as nat,
                    friendly,
                ),
            ensures
                out@ == full,
            decreases limit - out@.len(),
        {
            let ghost rem = (limit - out@.len()) as nat;
            let next = Position { x: XAxis(current.x.0 + dx), y: YAxis(current.y.0 + dy) };
            proof {
                assert(next == crate::piece::shifted(current, dx as int, dy as int));
            }
            if out.len() >= limit as usize {
                proof {
                    assert(out@ == full);
                }
                break ;
            }
            if !self.is_inside(&next) {
                proof {
                    assert(out@ == full);
                }
                break ;
            }
            match self.color_at(next) {
                Some(c) => {
                    if c == friendly {
                        proof {
                            assert(self.ray(
                                current,
                                dx as int,
                                dy as int,
                                rem,
                                friendly,
                            ) == Seq::<Position>::empty());
                            assert(out@ == full);
                        }
                        break ;
                    } else {
                        proof {
                            if self.occupied_by(next, friendly) {
                                self.lemma_color_at_unique(next, c, friendly);
                            }
                            assert(c == friendly.spec_opposite());
                            assert(self.ray(current, dx as int, dy as int, rem, friendly)
                                == seq![next]);
                        }
                        out.push(next);
                        proof {
                            assert(out@ == full);
                        }
                        break ;
                    }
                },
                None => {
                    proof {
                        assert(!self.occupied_by(next, friendly));
                        assert(!self.occupied_by(next, friendly.spec_opposite()));
                        assert(self.ray(current, dx as int, dy as int, rem, friendly)
                            == seq![next] + self.ray(
                            next,
                            dx as int,
                            dy as int,
                            (rem - 1) as nat,
                            friendly,
                        ));
                    }
                    out.push(next);
                    current = next;
                    proof {
                        assert(full == out@ + self.ray(
                            current,
                            dx as int,
                            dy as int,
                            (limit - out@.len()) as nat,
                            friendly,
                        ));
                    }
                },
            }
        }
        out
    }

    /// The squares of the two rank-walking rays from `origin`: ranks upward,
    /// then ranks downward, at a fixed file.
    pub open spec fn horizontal_positions(
        self,
        origin: Position,
        limit: Option<u8>,
        friendly: Color,
    ) -> Seq<Position> {
        self.ray(origin, 0, 1, ray_fuel(limit), friendly) + self.ray(
            origin,
            0,
            -1,
            ray_fuel(limit),
            friendly,
        )
    }

    /// The squares of the two file-walking rays from `origin`: files downward,
    /// then files upward, at a fixed rank.
    pub open spec fn vertical_positions(
        self,
        origin: Position,
        limit: Option<u8>,
        friendly: Color,
    ) -> Seq<Position> {
        self.ray(origin, -1, 0, ray_fuel(limit), friendly) + self.ray(
            origin,
            1,
            0,
            ray_fuel(limit),
            friendly,
        )
    }

    /// The squares of the four diagonal rays from `origin`: toward the upper
    /// left, upper right, lower left and lower right corners, in that order.
    pub open spec fn diagonal_positions(
        self,
        origin: Position,
        limit: Option<u8>,
        friendly: Color,
    ) -> Seq<Position> {
        self.ray(origin, -1, 1, ray_fuel(limit), friendly) + self.ray(
            origin,
            1,
            1,
            ray_fuel(limit),
            friendly,
        ) + self.ray(origin, -1, -1, ray_fuel(limit), friendly) + self.ray(
            origin,
            1,
            -1,
            ray_fuel(limit),
            friendly,
        )
    }

    /// Rank-walking rays at a fixed file, upward then downward. Squares stop
    /// at the first occupied one: a friendly blocker is excluded, a hostile
    /// one included. `limit` caps the steps per direction; `None` leaves the
    /// rays bounded by the board alone.
    pub fn horizontal_range(&self, origin: Position, limit: Option<u8>, friendly: Color) -> (r:
        HorizontalRange)
        requires
            self.wf(),
            self.inside(origin),
        ensures
            r.0@ == self.horizontal_positions(origin, limit, friendly),
    {
        let l = limit_steps(limit);
        let mut up = self.walk_ray(origin, 0, 1, l, friendly);
        let mut down = self.walk_ray(origin, 0, -1, l, friendly);
        up.append(&mut down);
        HorizontalRange(up)
    }

    /// File-walking rays at a fixed rank, downward then upward, with the same
    /// stopping rule as `horizontal_range`.
    pub fn vertical_range(&self, origin: Position, limit: Option<u8>, friendly: Color) -> (r:
        VerticalRange)
        requires
            self.wf(),
            self.inside(origin),
        ensures
            r.0@ == self.vertical_positions(origin, limit, friendly),
    {
        let l = limit_steps(limit);
        let mut left = self.walk_ray(origin, -1, 0, l, friendly);
        let mut right = self.walk_ray(origin, 1, 0, l, friendly);
        left.append(&mut right);
        VerticalRange(left)
    }

    /// The four diagonal rays, with the same stopping rule as
    /// `horizontal_range`.
    pub fn diagonal_range(&self, origin: Position, limit: Option<u8>, friendly: Color) -> (r:
        DiagonalRange)
        requires
            self.wf(),
            self.inside(origin),
        ensures
            r.0@ == self.diagonal_positions(origin, limit, friendly),
    {
        let l = limit_steps(limit);
        let mut out = self.walk_ray(origin, -1, 1, l, friendly);
        let mut upper_right = self.walk_ray(origin, 1, 1, l, friendly);
        let mut bottom_left = self.walk_ray(origin, -1, -1, l, friendly);
        let mut bottom_right = self.walk_ray(origin, 1, -1, l, friendly);
        out.append(&mut upper_right);
        out.append(&mut bottom_left);
        out.append(&mut bottom_right);
        DiagonalRange(out)
    }
}

impl Board {
    /// The move from `origin` to `dest`, classified against the occupancy:
    /// a hostile piece on `dest` makes it a capture, otherwise it is quiet.
    pub open spec fn classify(self, origin: Position, dest: Position, friendly: Color) -> Move {
        Move {
            origin,
            destination: dest,
            effect: if self.occupied_by(dest, friendly.spec_opposite()) {
                Some(Effect::Capture)
            } else {
                None
            },
        }
    }

    /// The moves classified from the first `n` squares of `cells`.
    pub open spec fn classified_upto(
        self,
        origin: Position,
        cells: Seq<Position>,
        friendly: Color,
        n: int,
    ) -> Seq<Move>
        decreases n,
    {
        if n <= 0 {
            Seq::empty()
        } else {
            self.classified_upto(origin, cells, friendly, n - 1) + seq![
                self.classify(origin, cells[n - 1], friendly),
            ]
        }
    }

    /// The moves classified from all squares of `cells`, in order.
    pub open spec fn classified(self, origin: Position, cells: Seq<Position>, friendly: Color) -> Seq<
        Move,
    > {
        self.classified_upto(origin, cells, friendly, cells.len() as int)
    }

    /// Classification maps the squares one for one: the k-th move is the
    /// k-th square classified.
    pub proof fn lemma_classified_index(
        self,
        origin: Position,
        cells: Seq<Position>,
        friendly: Color,
        n: int,
    )
        requires
            0 <= n <= cells.len(),
        ensures
            self.classified_upto(origin, cells, friendly, n).len() == n,
            forall|k: int|
                0 <= k < n ==> #[trigger] self.classified_upto(origin, cells, friendly, n)[k]
                    == self.classify(origin, cells[k], friendly),
        decreases n,
    {
        if n > 0 {
            self.lemma_classified_index(origin, cells, friendly, n - 1);
        }
    }

    /// Classifies each square of `cells` into a move from `origin`.
    pub(crate) fn classify_positions(&self, origin: Position, cells: &Vec<Position>, friendly: Color) -> (r:
        Vec<Move>)
        requires
            self.wf(),
        ensures
            r@ == self.classified(origin, cells@, friendly),
    {
        let n = cells.len();
        let mut out: Vec<Move> = Vec::new();
        let mut i: usize = 0;
        while i < n
            invariant
                self.wf(),
                n == cells@.len(),
                i <= n,
                out@ == self.classified_upto(origin, cells@, friendly, i as int),
            decreases n - i,
        {
            let dest = cells[i];
            let effect: Option<Effect> = match self.color_at(dest) {
                Some(c) => {
                    if c == friendly {
                        proof {
                            if self.occupied_by(dest, friendly.spec_opposite()) {
                                self.lemma_color_at_unique(dest, friendly, friendly.spec_opposite());
                            }
                        }
                        None
                    } else {
                        proof {
                            assert(c == friendly.spec_opposite());
                        }
                        Some(Effect::Capture)
                    }
                },
                None => None,
            };
            out.push(Move { origin, destination: dest, effect });
            i = i + 1;
        }
        out
    }
}

/// The piece a pawn turns into on promotion: the chosen kind, with the
/// pawn's colour and square, and the fresh state of a piece that has not
/// moved.
pub open spec fn promoted_piece(
    choice: ChoiceOfPromotablePiece,
    color: Color,
    position: Position,
) -> Piece {
    match choice {
        ChoiceOfPromotablePiece::Bishop => Piece::Bishop(Bishop { color, position }),
        ChoiceOfPromotablePiece::Knight => Piece::Knight(Knight { color, position }),
        ChoiceOfPromotablePiece::Queen => Piece::Queen(Queen { color, position }),
        ChoiceOfPromotablePiece::Rook => Piece::Rook(
            Rook { color, position, already_moved: false },
        ),
    }
}

/// The file direction from the rook toward the king: the sign of
/// `kingX - rookX`.
pub open spec fn castle_dir(kx: int, rx: int) -> int {
    if rx < kx {
        1
    } else {
        -1
    }
}

/// Where the king lands when castling: two files from its own square toward
/// the rook, on the shared rank.
pub open spec fn king_castle_dest(kpos: Position, rpos: Position) -> Position {
    Position { x: XAxis((kpos.x.0 - 2 * castle_dir(kpos.x.0 as int, rpos.x.0 as int)) as i8), y: kpos.y }
}

/// Where the rook lands when castling: one file from the king's original
/// square toward the rook, on the shared rank.
pub open spec fn rook_castle_dest(kpos: Position, rpos: Position) -> Position {
    Position { x: XAxis((kpos.x.0 - castle_dir(kpos.x.0 as int, rpos.x.0 as int)) as i8), y: kpos.y }
}

impl Board {
    /// The geometric half of castling eligibility, applied uniformly whether
    /// the king or the rook initiates: the two stand on one rank at least two
    /// files apart, and every square strictly between them is empty. The
    /// two-file gap keeps the king's landing square on the board and either
    /// strictly between the two (hence empty) or on the square the rook
    /// vacates, so that executing the castle never stacks two pieces.
    pub open spec fn castle_path_ok(self, kpos: Position, rpos: Position) -> bool {
        &&& rpos.y == kpos.y
        &&& (kpos.x.0 - rpos.x.0 >= 2 || rpos.x.0 - kpos.x.0 >= 2)
        &&& forall|t: int|
            rpos.x.0 < t < kpos.x.0 || kpos.x.0 < t < rpos.x.0 ==> !(#[trigger] self.occupied(
                Position { x: XAxis(t as i8), y: kpos.y },
            ))
    }

    /// Checks `castle_path_ok` against the occupancy.
    pub(crate) fn castle_geometry_ok(&self, kpos: Position, rpos: Position) -> (r: bool)
        requires
            self.wf(),
            self.inside(kpos),
            self.inside(rpos),
        ensures
            r == self.castle_path_ok(kpos, rpos),
    {
        if kpos.y.0 != rpos.y.0 {
            return false;
        }
        let king_left = kpos.x.0 < rpos.x.0;
        let lo = if king_left {
            kpos.x.0
        } else {
            rpos.x.0
        };
        let hi = if king_left {
            rpos.x.0
        } else {
            kpos.x.0
        };
        if hi - lo < 2 {
            return false;
        }
        let mut x: i8 = lo + 1;
        while x < hi
            invariant
                self.wf(),
                lo + 1 <= x <= hi,
                0 <= lo <= 7,
                0 <= hi <= 7,
                hi - lo >= 2,
                kpos.y == rpos.y,
                lo == (if kpos.x.0 < rpos.x.0 {
                    kpos.x.0
                } else {
                    rpos.x.0
                }),
                hi == (if kpos.x.0 < rpos.x.0 {
                    rpos.x.0
                } else {
                    kpos.x.0
                }),
                forall|t: int|
                    lo < t < x ==> !(#[trigger] self.occupied(
                        Position { x: XAxis(t as i8), y: kpos.y },
                    )),
            decreases hi - x,
        {
            if self.occupied_at(Position { x: XAxis(x), y: kpos.y }) {
                proof {
                    let t = x as int;
                    assert(XAxis(t as i8) == XAxis(x));
                    assert(self.occupied(Position { x: XAxis(t as i8), y: kpos.y }));
                    assert(lo < t < hi);
                    assert(rpos.x.0 < t < kpos.x.0 || kpos.x.0 < t < rpos.x.0);
                    assert(!self.castle_path_ok(kpos, rpos));
                }
                return false;
            }
            x = x + 1;
        }
        true
    }

    /// A king of colour `c` stands somewhere on the board.
    pub open spec fn has_king(self, c: Color) -> bool {
        exists|i: int|
            0 <= i < self.pieces@.len() && (#[trigger] self.pieces@[i]).kind() == PieceType::King
                && self.pieces@[i].color() == c
    }

    /// The index of the king of colour `c`; meaningful when `has_king(c)`
    /// holds, and unique under `wf`.
    pub open spec fn king_index(self, c: Color) -> int {
        choose|i: int|
            0 <= i < self.pieces@.len() && (#[trigger] self.pieces@[i]).kind() == PieceType::King
                && self.pieces@[i].color() == c
    }

    /// The king of colour `c`; meaningful when `has_king(c)` holds.
    pub open spec fn king_of(self, c: Color) -> Piece {
        self.pieces@[self.king_index(c)]
    }

    /// Under `wf`, the king of a colour is unique: any index holding one is
    /// `king_index(c)`.
    pub proof fn lemma_king_unique(self, c: Color, i: int)
        requires
            self.wf(),
            0 <= i < self.pieces@.len(),
            self.pieces@[i].kind() == PieceType::King,
            self.pieces@[i].color() == c,
        ensures
            self.king_index(c) == i,
            self.king_of(c) == self.pieces@[i],
            self.has_king(c),
    {
        assert(self.has_king(c));
        let j = self.king_index(c);
        if i != j {
            assert(self.pieces@[i].color() != self.pieces@[j].color());
        }
    }

    /// Whether a query for moves from `p` succeeds: a piece stands there and
    /// it belongs to the side whose turn it is.
    pub open spec fn query_ok(self, p: Position) -> bool {
        self.occupied(p) && self.piece_at(p).color() == self.turn
    }

    /// The moves available from `p`; meaningful when `query_ok(p)` holds.
    pub open spec fn moves_from(self, p: Position) -> Seq<Move> {
        crate::piece::piece_moves(self, self.piece_at(p))
    }

    /// The moves available from `pos`: `None` when no piece stands there or
    /// the piece does not belong to the side to move, otherwise the piece's
    /// candidate moves. A pure query: it depends on the board state alone,
    /// so two calls without an intervening `execute_move` agree.
    pub fn get_moves_from(&self, pos: Position) -> (r: Option<Vec<Move>>)
        requires
            self.wf(),
        ensures
            match r {
                Some(v) => self.query_ok(pos) && v@ == self.moves_from(pos),
                None => !self.query_ok(pos),
            },
            self.matches_moves_query(
                pos,
                match r {
                    Some(v) => Some(v@),
                    None => None,
                },
            ),
    {
        let n = self.pieces.len();
        let mut i: usize = 0;
        while i < n
            invariant
                self.wf(),
                n == self.pieces@.len(),
                i <= n,
                forall|j: int| 0 <= j < i ==> (#[trigger] self.pieces@[j]).position() != pos,
            decreases n - i,
        {
            let piece = self.pieces[i];
            if piece.get_position() == pos {
                proof {
                    self.lemma_index_at_unique(pos, i as int);
                }
                if piece.get_color() == self.turn {
                    return Some(piece.available_positions(self));
                } else {
                    return None;
                }
            }
            i = i + 1;
        }
        None
    }

    /// The index of the piece standing on `pos`.
    fn index_of_position(&self, pos: Position) -> (i: usize)
        requires
            self.wf(),
            self.occupied(pos),
        ensures
            i as int == self.index_at(pos),
            i < self.pieces@.len(),
            self.pieces@[i as int].position() == pos,
    {
        let n = self.pieces.len();
        let mut i: usize = 0;
        while i < n
            invariant
                self.wf(),
                self.occupied(pos),
                n == self.pieces@.len(),
                i <= n,
                forall|j: int| 0 <= j < i ==> (#[trigger] self.pieces@[j]).position() != pos,
            decreases n - i,
        {
            if self.pieces[i].get_position() == pos {
                proof {
                    self.lemma_index_at_unique(pos, i as int);
                }
                return i;
            }
            i = i + 1;
        }
        proof {
            assert(false);
        }
        0
    }

    /// The piece that replaces a promoted pawn: the chosen kind, with the
    /// original's colour and square.
    fn promote_piece(choice: ChoiceOfPromotablePiece, original: &Piece) -> (r: Piece)
        ensures
            r == promoted_piece(choice, original.color(), original.position()),
    {
        let position = original.get_position();
        let color = original.get_color();
        match choice {
            ChoiceOfPromotablePiece::Bishop => Piece::Bishop(Bishop::new(color, position)),
            ChoiceOfPromotablePiece::Knight => Piece::Knight(Knight::new(color, position)),
            ChoiceOfPromotablePiece::Queen => Piece::Queen(Queen::new(color, position)),
            ChoiceOfPromotablePiece::Rook => Piece::Rook(Rook::new(color, position)),
        }
    }

    /// What executing `mov` demands of this board: a piece of the side to
    /// move stands on the origin, and the side effect matches the board. A
    /// quiet move and a promotion land on an empty square inside the board,
    /// with the promotion's choice resolved; a capture lands on a hostile
    /// piece; a castling relocates the piece at the effect's origin too, and
    /// no third piece stands on either landing square. Every move that
    /// `get_moves_from` hands out satisfies this, once an open promotion
    /// choice is filled in: see `lemma_moves_from_executable`.
    pub open spec fn executable(self, mov: Move) -> bool {
        &&& self.occupied(mov.origin)
        &&& self.piece_at(mov.origin).color() == self.turn
        &&& match mov.effect {
            None => self.inside(mov.destination) && !self.occupied(mov.destination),
            Some(Effect::Capture) => self.occupied_by(
                mov.destination,
                self.turn.spec_opposite(),
            ),
            Some(Effect::Castling { origin: co, destination: cd }) => self.occupied(co) && co
                != mov.origin && self.inside(mov.destination) && self.inside(cd)
                && mov.destination != cd && (forall|i: int|
                0 <= i < self.pieces@.len() && (#[trigger] self.pieces@[i]).position()
                    != mov.origin && self.pieces@[i].position() != co
                    ==> self.pieces@[i].position() != mov.destination
                    && self.pieces@[i].position() != cd),
            Some(Effect::Promotion(choice)) => choice is Some && self.inside(mov.destination)
                && !self.occupied(mov.destination),
        }
    }

    /// Applies a previously generated move: relocates the piece standing at
    /// the move's origin to its destination, marking a rook, king or pawn as
    /// moved; applies the side effect; and passes the turn to the other
    /// side. The caller owes a move drawn from the generated candidates,
    /// with any promotion choice resolved; `executable` spells out what that
    /// guarantees.
    ///
    /// The turn always flips to the opposite colour, a capture removes
    /// exactly the piece standing on the destination, leaving one piece
    /// fewer, and the board invariant is preserved.
    pub fn execute_move(&mut self, mov: Move)
        requires
            old(self).wf(),
            old(self).executable(mov),
        ensures
            final(self).wf(),
            final(self).turn == old(self).turn.spec_opposite(),
            final(self).dimensions == old(self).dimensions,
            mov.effect matches Some(Effect::Capture) ==> final(self).pieces@.len()
                == old(self).pieces@.len() - 1,
            ({
                let mi = old(self).index_at(mov.origin);
                let moved = old(self).pieces@[mi].relocated(mov.destination);
                match mov.effect {
                    None => final(self).pieces@ == old(self).pieces@.update(mi, moved),
                    Some(Effect::Capture) => ({
                        let ei = old(self).index_at(mov.destination);
                        let mid = old(self).pieces@.update(mi, moved);
                        final(self).pieces@ == mid.update(ei, mid.last()).drop_last()
                    }),
                    Some(Effect::Castling { origin: co, destination: cd }) => ({
                        let oi = old(self).index_at(co);
                        final(self).pieces@ == old(self).pieces@.update(mi, moved).update(
                            oi,
                            old(self).pieces@[oi].relocated(cd),
                        )
                    }),
                    Some(Effect::Promotion(choice)) => choice matches Some(ch)
                        && final(self).pieces@ == old(self).pieces@.update(
                        mi,
                        promoted_piece(ch, old(self).pieces@[mi].color(), mov.destination),
                    ),
                }
            }),
    {
        let ghost s = self.pieces@;
        let mi = self.index_of_position(mov.origin);
        let ghost gmi = mi as int;
        let mut moved = self.pieces[mi];
        moved.move_to(mov.destination);
        match mov.effect {
            None => {
                self.pieces[mi] = moved;
                proof {
                    lemma_update_keeps_wf(s, gmi, moved, mov.destination);
                }
            },
            Some(Effect::Capture) => {
                let ei = self.index_of_position(mov.destination);
                proof {
                    assert(s[ei as int].color() == old(self).turn.spec_opposite()) by {
                        let w = choose|w: int|
                            0 <= w < s.len() && (#[trigger] s[w]).position() == mov.destination
                                && s[w].color() == old(self).turn.spec_opposite();
                        old(self).lemma_index_at_unique(mov.destination, w);
                    }
                    assert(mi != ei);
                }
                self.pieces[mi] = moved;
                self.pieces.swap_remove(ei);
                proof {
                    lemma_capture_keeps_wf(s, gmi, ei as int, moved, mov.destination);
                }
            },
            Some(Effect::Castling { origin, destination }) => {
                let oi = self.index_of_position(origin);
                proof {
                    assert(mi != oi);
                }
                self.pieces[mi] = moved;
                let mut other = self.pieces[oi];
                other.move_to(destination);
                self.pieces[oi] = other;
                proof {
                    lemma_castling_keeps_wf(
                        s,
                        gmi,
                        oi as int,
                        mov.destination,
                        destination,
                    );
                }
            },
            Some(Effect::Promotion(choice)) => {
                match choice {
                    Some(choice) => {
                        let promoted = Board::promote_piece(choice, &moved);
                        self.pieces[mi] = promoted;
                        proof {
                            lemma_promotion_keeps_wf(
                                s,
                                gmi,
                                promoted_piece(choice, s[gmi].color(), mov.destination),
                                mov.destination,
                            );
                        }
                    },
                    None => {
                        proof {
                            assert(false);
                        }
                    },
                }
            },
        }
        self.turn = self.turn.opposite();
    }

    /// Removes every piece standing on `pos` (at most one, on a well-formed
    /// board), keeping the others in order.
    pub fn capture_piece(&mut self, pos: Position)
        requires
            old(self).wf(),
        ensures
            final(self).wf(),
            final(self).turn == old(self).turn,
            final(self).dimensions == old(self).dimensions,
            final(self).pieces@ == without_position(old(self).pieces@, pos),
    {
        let ghost s = self.pieces@;
        let n = self.pieces.len();
        let mut kept: Vec<Piece> = Vec::new();
        let mut i: usize = 0;
        while i < n
            invariant
                s == self.pieces@,
                n == s.len(),
                i <= n,
                kept@ == without_position_upto(s, pos, i as int),
            decreases n - i,
        {
            let piece = self.pieces[i];
            if !(piece.get_position() == pos) {
                kept.push(piece);
            }
            i = i + 1;
        }
        proof {
            lemma_without_position_wf(s, pos, n as int);
        }
        self.pieces = kept;
    }

    /// All pieces matching the given filters, in board order: a kind filter,
    /// a colour filter, or both; a filter left `None` matches everything.
    pub fn find_pieces(&self, piece_type_filter: Option<PieceType>, color_filter: Option<Color>) -> (r:
        Vec<Piece>)
        ensures
            r@ == found_pieces(self.pieces@, piece_type_filter, color_filter, self.pieces@.len() as int),
    {
        let n = self.pieces.len();
        let mut out: Vec<Piece> = Vec::new();
        let mut i: usize = 0;
        while i < n
            invariant
                n == self.pieces@.len(),
                i <= n,
                out@ == found_pieces(self.pieces@, piece_type_filter, color_filter, i as int),
            decreases n - i,
        {
            let piece = self.pieces[i];
            let type_ok = match piece_type_filter {
                Some(t) => piece.get_type() == t,
                None => true,
            };
            let color_ok = match color_filter {
                Some(c) => piece.get_color() == c,
                None => true,
            };
            if type_ok && color_ok {
                out.push(piece);
            }
            i = i + 1;
        }
        out
    }

    /// The king of colour `c`, or `None` when the board holds none.
    pub(crate) fn find_king(&self, c: Color) -> (r: Option<Piece>)
        requires
            self.wf(),
        ensures
            match r {
                Some(k) => self.has_king(c) && k == self.king_of(c),
                None => !self.has_king(c),
            },
    {
        let n = self.pieces.len();
        let mut i: usize = 0;
        while i < n
            invariant
                self.wf(),
                n == self.pieces@.len(),
                i <= n,
                forall|j: int|
                    0 <= j < i ==> !((#[trigger] self.pieces@[j]).kind() == PieceType::King
                        && self.pieces@[j].color() == c),
            decreases n - i,
        {
            let piece = self.pieces[i];
            if piece.get_type() == PieceType::King && piece.get_color() == c {
                proof {
                    self.lemma_king_unique(c, i as int);
                }
                return Some(piece);
            }
            i = i + 1;
        }
        None
    }
}

/// A freshly created piece of the given kind, colour and square: its moved
/// flag, where it has one, is clear.
pub open spec fn fresh_piece(kind: PieceType, color: Color, position: Position) -> Piece {
    match kind {
        PieceType::Bishop => Piece::Bishop(Bishop { color, position }),
        PieceType::King => Piece::King(King { color, position, already_moved: false }),
        PieceType::Knight => Piece::Knight(Knight { color, position }),
        PieceType::Pawn => Piece::Pawn(Pawn { color, position, already_moved: false }),
        PieceType::Queen => Piece::Queen(Queen { color, position }),
        PieceType::Rook => Piece::Rook(Rook { color, position, already_moved: false }),
    }
}

/// The piece kind standing on file `x` of a back rank in the standard
/// initial arrangement.
pub open spec fn back_rank_kind(x: int) -> PieceType {
    if x == 0 || x == 7 {
        PieceType::Rook
    } else if x == 1 || x == 6 {
        PieceType::Knight
    } else if x == 2 || x == 5 {
        PieceType::Bishop
    } else if x == 3 {
        PieceType::Queen
    } else {
        PieceType::King
    }
}

/// The `i`-th piece of the standard initial position, in the order the
/// default board lists them: the eight White pawns, the White back rank, the
/// eight Black pawns, the Black back rank.
pub open spec fn standard_piece(i: int) -> Piece {
    if i < 8 {
        fresh_piece(PieceType::Pawn, Color::White, Position { x: XAxis(i as i8), y: YAxis(1) })
    } else if i < 16 {
        fresh_piece(
            back_rank_kind(i - 8),
            Color::White,
            Position { x: XAxis((i - 8) as i8), y: YAxis(0) },
        )
    } else if i < 24 {
        fresh_piece(
            PieceType::Pawn,
            Color::Black,
            Position { x: XAxis((i - 16) as i8), y: YAxis(6) },
        )
    } else {
        fresh_piece(
            back_rank_kind(i - 24),
            Color::Black,
            Position { x: XAxis((i - 24) as i8), y: YAxis(7) },
        )
    }
}

/// The thirty-two pieces of the standard initial position.
pub open spec fn standard_pieces() -> Seq<Piece> {
    Seq::new(32, |i: int| standard_piece(i))
}

/// The pieces among the first `n` of `s` that do not stand on `pos`, in
/// order.
pub open spec fn without_position_upto(s: Seq<Piece>, pos: Position, n: int) -> Seq<Piece>
    decreases n,
{
    if n <= 0 {
        Seq::empty()
    } else {
        without_position_upto(s, pos, n - 1) + (if s[n - 1].position() != pos {
            seq![s[n - 1]]
        } else {
            Seq::empty()
        })
    }
}

/// The pieces of `s` that do not stand on `pos`, in order.
pub open spec fn without_position(s: Seq<Piece>, pos: Position) -> Seq<Piece> {
    without_position_upto(s, pos, s.len() as int)
}

/// The pieces among the first `n` of `s` matching the two optional filters,
/// in order.
pub open spec fn found_pieces(
    s: Seq<Piece>,
    piece_type_filter: Option<PieceType>,
    color_filter: Option<Color>,
    n: int,
) -> Seq<Piece>
    decreases n,
{
    if n <= 0 {
        Seq::empty()
    } else {
        found_pieces(s, piece_type_filter, color_filter, n - 1) + (if (match piece_type_filter {
            Some(t) => s[n - 1].kind() == t,
            None => true,
        } && match color_filter {
            Some(c) => s[n - 1].color() == c,
            None => true,
        }) {
            seq![s[n - 1]]
        } else {
            Seq::empty()
        })
    }
}

/// `e` is one of the first `n` pieces of `s`.
pub open spec fn piece_from_prefix(s: Seq<Piece>, n: int, e: Piece) -> bool {
    exists|j: int| 0 <= j < n && e == #[trigger] s[j]
}

/// Dropping the pieces on one square keeps a well-formed collection well
/// formed: what remains is a subsequence of the original.
proof fn lemma_without_position_wf(s: Seq<Piece>, pos: Position, n: int)
    requires
        all_inside(s),
        positions_distinct(s),
        kings_unique(s),
        0 <= n <= s.len(),
    ensures
        ({
            let r = without_position_upto(s, pos, n);
            &&& r.len() <= n
            &&& all_inside(r)
            &&& positions_distinct(r)
            &&& kings_unique(r)
            &&& forall|k: int| 0 <= k < r.len() ==> #[trigger] piece_from_prefix(s, n, r[k])
        }),
    decreases n,
{
    if n > 0 {
        lemma_without_position_wf(s, pos, n - 1);
        let prev = without_position_upto(s, pos, n - 1);
        let r = without_position_upto(s, pos, n);
        assert forall|k: int| 0 <= k < prev.len() implies #[trigger] piece_from_prefix(
            s,
            n,
            prev[k],
        ) by {
            assert(piece_from_prefix(s, n - 1, prev[k]));
            let j = choose|j: int| 0 <= j < n - 1 && prev[k] == #[trigger] s[j];
            assert(prev[k] == s[j]);
        }
        if s[n - 1].position() != pos {
            assert(r == prev + seq![s[n - 1]]);
            assert(r[r.len() - 1] == s[n - 1]);
            assert forall|k: int| 0 <= k < r.len() implies #[trigger] piece_from_prefix(
                s,
                n,
                r[k],
            ) by {
                if k < prev.len() {
                    assert(r[k] == prev[k]);
                } else {
                    assert(r[k] == s[n - 1]);
                }
            }
            assert forall|a: int, b: int| 0 <= a < b < r.len() implies (#[trigger] r[a]).position()
                != (#[trigger] r[b]).position() by {
                if b == r.len() - 1 {
                    assert(piece_from_prefix(s, n - 1, prev[a]));
                    let j = choose|j: int| 0 <= j < n - 1 && prev[a] == #[trigger] s[j];
                    assert(r[a] == s[j]);
                    assert(s[j].position() != s[n - 1].position());
                } else {
                    assert(r[a] == prev[a] && r[b] == prev[b]);
                }
            }
            assert forall|a: int, b: int|
                0 <= a < b < r.len() && (#[trigger] r[a]).kind() == PieceType::King && (
                #[trigger] r[b]).kind() == PieceType::King implies r[a].color() != r[b].color() by {
                if b == r.len() - 1 {
                    assert(piece_from_prefix(s, n - 1, prev[a]));
                    let j = choose|j: int| 0 <= j < n - 1 && prev[a] == #[trigger] s[j];
                    assert(r[a] == s[j]);
                    assert(r[b] == s[n - 1]);
                    if j < n - 1 {
                        assert(s[j].color() != s[n - 1].color());
                    }
                } else {
                    assert(r[a] == prev[a] && r[b] == prev[b]);
                }
            }
            assert forall|k: int| 0 <= k < r.len() implies 0 <= (#[trigger] r[k]).position().x.0
                <= 7 && 0 <= r[k].position().y.0 <= 7 by {
                assert(piece_from_prefix(s, n, r[k]));
                let j = choose|j: int| 0 <= j < n && r[k] == #[trigger] s[j];
                assert(r[k] == s[j]);
            }
        } else {
            assert(r =~= prev);
        }
    }
}

impl Board {
    /// What a result of `get_moves_from` for the square `p` must be:
    /// nothing when the query fails, the available moves when it succeeds.
    pub open spec fn matches_moves_query(self, p: Position, r: Option<Seq<Move>>) -> bool {
        match r {
            None => !self.query_ok(p),
            Some(s) => self.query_ok(p) && s == self.moves_from(p),
        }
    }

    /// Querying the available moves is idempotent: the result is a function
    /// of the board state alone, so any two results of `get_moves_from` for
    /// one board and one square agree.
    pub proof fn lemma_get_moves_from_idempotent(
        self,
        p: Position,
        r1: Option<Seq<Move>>,
        r2: Option<Seq<Move>>,
    )
        requires
            self.matches_moves_query(p, r1),
            self.matches_moves_query(p, r2),
        ensures
            r1 == r2,
    {
    }

    /// A capture removes exactly one piece, the one standing on the
    /// destination: the piece count drops by one, the mover stands on the
    /// destination, its own square is vacated, and every piece on any other
    /// square is untouched. `pre` and `post` are the board around a call of
    /// `execute_move` on a capture move, related as its contract states.
    pub proof fn lemma_capture_removes_target(pre: Board, post: Board, mov: Move)
        requires
            pre.wf(),
            post.wf(),
            pre.occupied(mov.origin),
            pre.piece_at(mov.origin).color() == pre.turn,
            pre.occupied_by(mov.destination, pre.turn.spec_opposite()),
            ({
                let mi = pre.index_at(mov.origin);
                let ei = pre.index_at(mov.destination);
                let mid = pre.pieces@.update(mi, pre.pieces@[mi].relocated(mov.destination));
                post.pieces@ == mid.update(ei, mid.last()).drop_last()
            }),
        ensures
            post.pieces@.len() == pre.pieces@.len() - 1,
            post.occupied(mov.destination),
            post.piece_at(mov.destination) == pre.piece_at(mov.origin).relocated(mov.destination),
            !post.occupied(mov.origin),
            forall|q: Position|
                q != mov.origin && q != mov.destination ==> (#[trigger] post.occupied(q)
                    <==> pre.occupied(q)),
            forall|q: Position|
                q != mov.origin && q != mov.destination && #[trigger] post.occupied(q)
                    ==> post.piece_at(q) == pre.piece_at(q),
    {
        let s = pre.pieces@;
        let mi = pre.index_at(mov.origin);
        let ei = pre.index_at(mov.destination);
        let moved = s[mi].relocated(mov.destination);
        let mid = s.update(mi, moved);
        let n = s.len() as int;
        assert(0 <= mi < n && s[mi].position() == mov.origin);
        assert(0 <= ei < n && s[ei].position() == mov.destination) by {
            let w = choose|w: int|
                0 <= w < s.len() && (#[trigger] s[w]).position() == mov.destination
                    && s[w].color() == pre.turn.spec_opposite();
            pre.lemma_index_at_unique(mov.destination, w);
        }
        assert(mi != ei);
        // the mover now stands on the destination
        let k_moved: int = if mi == n - 1 && ei != n - 1 {
            ei
        } else {
            mi
        };
        assert(post.pieces@[k_moved] == moved);
        assert(post.occupied(mov.destination));
        post.lemma_index_at_unique(mov.destination, k_moved);
        // the origin square is vacated
        assert forall|k: int| 0 <= k < post.pieces@.len() implies (
        #[trigger] post.pieces@[k]).position() != mov.origin by {
            let x = if k == ei {
                n - 1
            } else {
                k
            };
            assert(post.pieces@[k] == mid[x]);
            if x != mi {
                assert(mid[x] == s[x]);
                if s[x].position() == mov.origin {
                    pre.lemma_index_at_unique(mov.origin, x);
                }
            }
        }
        // any other square holds in `post` exactly what it held in `pre`
        assert forall|q: Position|
            q != mov.origin && q != mov.destination && #[trigger] pre.occupied(q) implies
            post.occupied(q) && post.piece_at(q) == pre.piece_at(q) by {
            let j = pre.index_at(q);
            assert(0 <= j < n && s[j].position() == q) by {
                let w = choose|w: int| 0 <= w < s.len() && (#[trigger] s[w]).position() == q;
                pre.lemma_index_at_unique(q, w);
            }
            assert(j != mi && j != ei);
            let k = if j == n - 1 {
                ei
            } else {
                j
            };
            assert(post.pieces@[k] == mid[j]);
            assert(mid[j] == s[j]);
            assert(post.occupied(q));
            post.lemma_index_at_unique(q, k);
            pre.lemma_index_at_unique(q, j);
        }
        assert forall|q: Position|
            q != mov.origin && q != mov.destination && #[trigger] post.occupied(q) implies
            pre.occupied(q) by {
            let k = post.index_at(q);
            assert(0 <= k < post.pieces@.len() && post.pieces@[k].position() == q) by {
                let w = choose|w: int|
                    0 <= w < post.pieces@.len() && (#[trigger] post.pieces@[w]).position() == q;
                post.lemma_index_at_unique(q, w);
            }
            let x = if k == ei {
                n - 1
            } else {
                k
            };
            assert(post.pieces@[k] == mid[x]);
            if x != mi {
                assert(mid[x] == s[x]);
                assert(pre.occupied(q));
            }
        }
    }

    /// Executing a promotion leaves, on the destination square, a single
    /// piece of the chosen kind with the moving pawn's colour, fresh as if
    /// it had never moved. `pre` and `post` are the board around a call of
    /// `execute_move` on a promotion move, related as its contract states.
    pub proof fn lemma_promotion_places_chosen_piece(
        pre: Board,
        post: Board,
        mov: Move,
        ch: ChoiceOfPromotablePiece,
    )
        requires
            pre.wf(),
            post.wf(),
            pre.occupied(mov.origin),
            !pre.occupied(mov.destination),
            ({
                let mi = pre.index_at(mov.origin);
                post.pieces@ == pre.pieces@.update(
                    mi,
                    promoted_piece(ch, pre.pieces@[mi].color(), mov.destination),
                )
            }),
        ensures
            post.pieces@.len() == pre.pieces@.len(),
            post.occupied(mov.destination),
            post.piece_at(mov.destination) == promoted_piece(
                ch,
                pre.piece_at(mov.origin).color(),
                mov.destination,
            ),
            !post.piece_at(mov.destination).has_moved(),
    {
        let mi = pre.index_at(mov.origin);
        assert(0 <= mi < pre.pieces@.len() && pre.pieces@[mi].position() == mov.origin);
        let promoted = promoted_piece(ch, pre.pieces@[mi].color(), mov.destination);
        assert(post.pieces@[mi] == promoted);
        assert(promoted.position() == mov.destination);
        assert(post.occupied(mov.destination));
        post.lemma_index_at_unique(mov.destination, mi);
    }

    /// A caller that only ever executes moves drawn from `get_moves_from`'s
    /// own output never violates `execute_move`'s contract: every offered
    /// move starts at the queried square and is executable on the board it
    /// was generated from, once an open promotion choice is resolved (to
    /// `ch`; a move without one is untouched by the resolution).
    pub proof fn lemma_moves_from_executable(self, p: Position, ch: ChoiceOfPromotablePiece)
        requires
            self.wf(),
            self.query_ok(p),
        ensures
            forall|k: int|
                0 <= k < self.moves_from(p).len() ==> self.executable(
                    crate::piece::with_promotion_choice(#[trigger] self.moves_from(p)[k], ch),
                ) && self.moves_from(p)[k].origin == p,
    {
        let pc = self.piece_at(p);
        let i = self.index_at(p);
        assert(0 <= i < self.pieces@.len() && self.pieces@[i] == pc && pc.position() == p);
        assert(self.inside(p));
        match pc {
            Piece::Bishop(x) => crate::pieces::lemma_bishop_moves_executable(self, x),
            Piece::King(x) => crate::pieces::lemma_king_moves_executable(self, x),
            Piece::Knight(x) => crate::pieces::lemma_knight_moves_executable(self, x),
            Piece::Pawn(x) => crate::pieces::lemma_pawn_moves_executable(self, x, ch),
            Piece::Queen(x) => crate::pieces::lemma_queen_moves_executable(self, x),
            Piece::Rook(x) => crate::pieces::lemma_rook_moves_executable(self, x),
        }
    }

    /// Every move offered from any square of a well-formed board has a
    /// destination inside the board.
    pub proof fn lemma_moves_from_inside(self, p: Position)
        requires
            self.wf(),
            self.occupied(p),
        ensures
            forall|k: int|
                0 <= k < self.moves_from(p).len() ==> self.inside(
                    #[trigger] self.moves_from(p)[k].destination,
                ),
    {
        let pc = self.piece_at(p);
        let i = self.index_at(p);
        assert(0 <= i < self.pieces@.len() && self.pieces@[i] == pc);
        assert(self.inside(pc.position()));
        match pc {
            Piece::Bishop(x) => crate::pieces::lemma_bishop_moves_inside(self, x),
            Piece::King(x) => crate::pieces::lemma_king_moves_inside(self, x),
            Piece::Knight(x) => crate::pieces::lemma_knight_moves_inside(self, x),
            Piece::Pawn(x) => crate::pieces::lemma_pawn_moves_inside(self, x),
            Piece::Queen(x) => crate::pieces::lemma_queen_moves_inside(self, x),
            Piece::Rook(x) => crate::pieces::lemma_rook_moves_inside(self, x),
        }
    }

    /// The blocking discipline of a ray: every square of it lies inside the
    /// board, no friendly square is ever included, no square short of the
    /// last is occupied (so a ray never continues past the first occupied
    /// square), and an occupied square can only be the last one, hostile.
    pub proof fn lemma_ray_blocking(
        self,
        origin: Position,
        dx: int,
        dy: int,
        fuel: nat,
        friendly: Color,
    )
        ensures
            ({
                let r = self.ray(origin, dx, dy, fuel, friendly);
                &&& forall|k: int| 0 <= k < r.len() ==> self.inside(#[trigger] r[k])
                &&& forall|k: int| 0 <= k < r.len() ==> !self.occupied_by(#[trigger] r[k], friendly)
                &&& forall|k: int| 0 <= k < r.len() - 1 ==> !self.occupied(#[trigger] r[k])
                &&& forall|k: int|
                    0 <= k < r.len() && self.occupied(#[trigger] r[k]) ==> k == r.len() - 1
                        && self.occupied_by(r[k], friendly.spec_opposite())
            }),
        decreases fuel,
    {
        if fuel > 0 {
            let next = crate::piece::shifted(origin, dx, dy);
            let r = self.ray(origin, dx, dy, fuel, friendly);
            if !self.inside(next) || self.occupied_by(next, friendly) {
                // the ray is empty
            } else if self.occupied_by(next, friendly.spec_opposite()) {
                assert(r == seq![next]);
            } else {
                let rest = self.ray(next, dx, dy, (fuel - 1) as nat, friendly);
                self.lemma_ray_blocking(next, dx, dy, (fuel - 1) as nat, friendly);
                assert(r == seq![next] + rest);
                assert forall|k: int| 1 <= k < r.len() implies r[k] == rest[k - 1] by {}
                assert(!self.occupied(next)) by {
                    if self.occupied(next) {
                        let w = choose|w: int|
                            0 <= w < self.pieces@.len() && (#[trigger] self.pieces@[w]).position()
                                == next;
                        assert(self.occupied_by(next, self.pieces@[w].color()));
                        assert(self.pieces@[w].color() == friendly || self.pieces@[w].color()
                            == friendly.spec_opposite());
                    }
                }
            }
        }
    }
}

impl Board {
    /// Every square of the three range walks lies inside the board and
    /// holds no friendly piece.
    pub proof fn lemma_range_cells_inside(self, origin: Position, limit: Option<u8>, friendly: Color)
        ensures
            forall|k: int|
                0 <= k < self.horizontal_positions(origin, limit, friendly).len() ==> self.inside(
                    #[trigger] self.horizontal_positions(origin, limit, friendly)[k],
                ) && !self.occupied_by(
                    self.horizontal_positions(origin, limit, friendly)[k],
                    friendly,
                ),
            forall|k: int|
                0 <= k < self.vertical_positions(origin, limit, friendly).len() ==> self.inside(
                    #[trigger] self.vertical_positions(origin, limit, friendly)[k],
                ) && !self.occupied_by(self.vertical_positions(origin, limit, friendly)[k], friendly),
            forall|k: int|
                0 <= k < self.diagonal_positions(origin, limit, friendly).len() ==> self.inside(
                    #[trigger] self.diagonal_positions(origin, limit, friendly)[k],
                ) && !self.occupied_by(self.diagonal_positions(origin, limit, friendly)[k], friendly),
    {
        let fuel = ray_fuel(limit);
        self.lemma_ray_blocking(origin, 0, 1, fuel, friendly);
        self.lemma_ray_blocking(origin, 0, -1, fuel, friendly);
        self.lemma_ray_blocking(origin, -1, 0, fuel, friendly);
        self.lemma_ray_blocking(origin, 1, 0, fuel, friendly);
        self.lemma_ray_blocking(origin, -1, 1, fuel, friendly);
        self.lemma_ray_blocking(origin, 1, 1, fuel, friendly);
        self.lemma_ray_blocking(origin, -1, -1, fuel, friendly);
        self.lemma_ray_blocking(origin, 1, -1, fuel, friendly);
    }

    /// Both castling destinations lie inside the board: the two-file gap
    /// that `castle_path_ok` demands keeps them between the rook's file and
    /// the king's, or on the rook's own square.
    pub proof fn lemma_castle_dests_inside(self, kpos: Position, rpos: Position)
        requires
            self.castle_path_ok(kpos, rpos),
            self.inside(kpos),
            self.inside(rpos),
        ensures
            self.inside(king_castle_dest(kpos, rpos)),
            self.inside(rook_castle_dest(kpos, rpos)),
    {
    }

    /// The moves a sliding piece derives from one ray: each one targets the
    /// ray's square of the same index; every square short of the last is
    /// empty and its move is quiet; and an occupied square can only be the
    /// ray's last, hostile, its move marked as a capture.
    pub proof fn lemma_ray_moves_classified(
        self,
        origin: Position,
        dx: int,
        dy: int,
        fuel: nat,
        friendly: Color,
    )
        ensures
            ({
                let r = self.ray(origin, dx, dy, fuel, friendly);
                let ms = self.classified(origin, r, friendly);
                &&& ms.len() == r.len()
                &&& forall|k: int| 0 <= k < r.len() ==> (#[trigger] ms[k]).destination == r[k]
                &&& forall|k: int|
                    0 <= k < r.len() - 1 ==> !self.occupied(r[k]) && (#[trigger] ms[k]).effect
                        is None
                &&& forall|k: int|
                    0 <= k < r.len() && self.occupied(#[trigger] r[k]) ==> k == r.len() - 1
                        && ms[k].effect == Some(Effect::Capture)
            }),
    {
        let r = self.ray(origin, dx, dy, fuel, friendly);
        let ms = self.classified(origin, r, friendly);
        self.lemma_ray_blocking(origin, dx, dy, fuel, friendly);
        self.lemma_classified_index(origin, r, friendly, r.len() as int);
        assert forall|k: int|
            0 <= k < r.len() && self.occupied(#[trigger] r[k]) implies k == r.len() - 1
            && ms[k].effect == Some(Effect::Capture) by {
            assert(self.occupied_by(r[k], friendly.spec_opposite()));
        }
    }

    /// An occupied square is occupied by one of the two sides.
    pub proof fn lemma_occupied_some_color(self, p: Position)
        requires
            self.occupied(p),
        ensures
            self.occupied_by(p, Color::White) || self.occupied_by(p, Color::Black),
    {
        let w = choose|w: int|
            0 <= w < self.pieces@.len() && (#[trigger] self.pieces@[w]).position() == p;
        assert(self.occupied_by(p, self.pieces@[w].color()));
    }

    /// Classifying squares that lie inside the board and hold no friendly
    /// piece yields only executable moves: quiet ones onto empty squares and
    /// captures onto hostile ones.
    pub(crate) proof fn lemma_classified_executable(self, origin: Position, cells: Seq<Position>, friendly: Color)
        requires
            self.wf(),
            self.occupied(origin),
            self.piece_at(origin).color() == self.turn,
            friendly == self.turn,
            forall|k: int|
                0 <= k < cells.len() ==> self.inside(#[trigger] cells[k]) && !self.occupied_by(
                    cells[k],
                    friendly,
                ),
        ensures
            forall|k: int|
                0 <= k < self.classified(origin, cells, friendly).len() ==> self.executable(
                    #[trigger] self.classified(origin, cells, friendly)[k],
                ) && self.classified(origin, cells, friendly)[k].origin == origin,
    {
        let ms = self.classified(origin, cells, friendly);
        self.lemma_classified_index(origin, cells, friendly, cells.len() as int);
        assert forall|k: int| 0 <= k < ms.len() implies self.executable(#[trigger] ms[k])
            && ms[k].origin == origin by {
            assert(ms[k] == self.classify(origin, cells[k], friendly));
            if !self.occupied_by(cells[k], friendly.spec_opposite()) {
                if self.occupied(cells[k]) {
                    self.lemma_occupied_some_color(cells[k]);
                }
                assert(!self.occupied(cells[k]));
            }
        }
    }

    /// The landing squares of a castling hold no piece that stays put: the
    /// rook's destination is strictly between the two and therefore empty,
    /// and the king's destination is either empty as well or the square the
    /// rook itself vacates.
    pub proof fn lemma_castle_squares_clear(self, kpos: Position, rpos: Position)
        requires
            self.castle_path_ok(kpos, rpos),
        ensures
            kpos != rpos,
            rook_castle_dest(kpos, rpos) != king_castle_dest(kpos, rpos),
            !self.occupied(rook_castle_dest(kpos, rpos)),
            king_castle_dest(kpos, rpos) == rpos || !self.occupied(king_castle_dest(kpos, rpos)),
    {
        let d = castle_dir(kpos.x.0 as int, rpos.x.0 as int);
        let rd = rook_castle_dest(kpos, rpos);
        let kd = king_castle_dest(kpos, rpos);
        assert(rd == (Position { x: XAxis((kpos.x.0 - d) as i8), y: kpos.y }));
        assert(!self.occupied(Position { x: XAxis((kpos.x.0 - d) as i8), y: kpos.y }));
        if kd != rpos {
            assert(!self.occupied(Position { x: XAxis((kpos.x.0 - 2 * d) as i8), y: kpos.y }));
        }
    }
}

/// Builds a freshly created piece of the given kind, colour and square.
fn make_fresh_piece(kind: PieceType, color: Color, position: Position) -> (r: Piece)
    ensures
        r == fresh_piece(kind, color, position),
{
    match kind {
        PieceType::Bishop => Piece::Bishop(Bishop::new(color, position)),
        PieceType::King => Piece::King(King::new(color, position)),
        PieceType::Knight => Piece::Knight(Knight::new(color, position)),
        PieceType::Pawn => Piece::Pawn(Pawn::new(color, position)),
        PieceType::Queen => Piece::Queen(Queen::new(color, position)),
        PieceType::Rook => Piece::Rook(Rook::new(color, position)),
    }
}

/// Builds the piece kind standing on file `x` of a back rank in the
/// standard initial arrangement.
fn make_back_rank_kind(x: i8) -> (r: PieceType)
    ensures
        r == back_rank_kind(x as int),
{
    if x == 0 || x == 7 {
        PieceType::Rook
    } else if x == 1 || x == 6 {
        PieceType::Knight
    } else if x == 2 || x == 5 {
        PieceType::Bishop
    } else if x == 3 {
        PieceType::Queen
    } else {
        PieceType::King
    }
}

impl Default for Board {
    /// The standard initial position, with White to move.
    fn default() -> (r: Self)
        ensures
            r.wf(),
            r.turn == Color::White,
            r.pieces@ == standard_pieces(),
    {
        let mut pieces: Vec<Piece> = Vec::new();
        let mut x: i8 = 0;
        while x < 8
            invariant
                0 <= x <= 8,
                pieces@.len() == x,
                forall|k: int| 0 <= k < pieces@.len() ==> #[trigger] pieces@[k] == standard_piece(k),
            decreases 8 - x,
        {
            pieces.push(
                make_fresh_piece(
                    PieceType::Pawn,
                    Color::White,
                    Position { x: XAxis(x), y: YAxis(1) },
                ),
            );
            x = x + 1;
        }
        let mut x: i8 = 0;
        while x < 8
            invariant
                0 <= x <= 8,
                pieces@.len() == 8 + x,
                forall|k: int| 0 <= k < pieces@.len() ==> #[trigger] pieces@[k] == standard_piece(k),
            decreases 8 - x,
        {
            let kind = make_back_rank_kind(x);
            pieces.push(make_fresh_piece(kind, Color::White, Position { x: XAxis(x), y: YAxis(0) }));
            x = x + 1;
        }
        let mut x: i8 = 0;
        while x < 8
            invariant
                0 <= x <= 8,
                pieces@.len() == 16 + x,
                forall|k: int| 0 <= k < pieces@.len() ==> #[trigger] pieces@[k] == standard_piece(k),
            decreases 8 - x,
        {
            pieces.push(
                make_fresh_piece(
                    PieceType::Pawn,
                    Color::Black,
                    Position { x: XAxis(x), y: YAxis(6) },
                ),
            );
            x = x + 1;
        }
        let mut x: i8 = 0;
        while x < 8
            invariant
                0 <= x <= 8,
                pieces@.len() == 24 + x,
                forall|k: int| 0 <= k < pieces@.len() ==> #[trigger] pieces@[k] == standard_piece(k),
            decreases 8 - x,
        {
            let kind = make_back_rank_kind(x);
            pieces.push(make_fresh_piece(kind, Color::Black, Position { x: XAxis(x), y: YAxis(7) }));
            x = x + 1;
        }
        proof {
            assert(pieces@ =~= standard_pieces());
            assert(all_inside(standard_pieces()));
            assert(positions_distinct(standard_pieces()));
            assert(kings_unique(standard_pieces()));
        }
        let dimensions = (XAxis::new(7), YAxis::new(7));
        Board { pieces, dimensions, turn: Color::White }
    }
}

/// Relocating a piece onto an empty, in-bounds square keeps the piece
/// collection well formed.
proof fn lemma_update_keeps_wf(s: Seq<Piece>, mi: int, moved: Piece, dest: Position)
    requires
        all_inside(s),
        positions_distinct(s),
        kings_unique(s),
        0 <= mi < s.len(),
        moved.position() == dest,
        moved.kind() == s[mi].kind(),
        moved.color() == s[mi].color(),
        0 <= dest.x.0 <= 7,
        0 <= dest.y.0 <= 7,
        forall|k: int| 0 <= k < s.len() ==> (#[trigger] s[k]).position() != dest,
    ensures
        all_inside(s.update(mi, moved)),
        positions_distinct(s.update(mi, moved)),
        kings_unique(s.update(mi, moved)),
{
}

/// Replacing a piece by its promotion, on an empty, in-bounds square and to
/// a kind other than a king, keeps the piece collection well formed.
proof fn lemma_promotion_keeps_wf(s: Seq<Piece>, mi: int, promoted: Piece, dest: Position)
    requires
        all_inside(s),
        positions_distinct(s),
        kings_unique(s),
        0 <= mi < s.len(),
        promoted.position() == dest,
        promoted.kind() != PieceType::King,
        0 <= dest.x.0 <= 7,
        0 <= dest.y.0 <= 7,
        forall|k: int| 0 <= k < s.len() ==> (#[trigger] s[k]).position() != dest,
    ensures
        all_inside(s.update(mi, promoted)),
        positions_distinct(s.update(mi, promoted)),
        kings_unique(s.update(mi, promoted)),
{
}

/// Moving the piece at `mi` onto the square of the piece at `ei` and then
/// removing the latter by a swap with the last element keeps the piece
/// collection well formed, one piece smaller.
proof fn lemma_capture_keeps_wf(s: Seq<Piece>, mi: int, ei: int, moved: Piece, dest: Position)
    requires
        all_inside(s),
        positions_distinct(s),
        kings_unique(s),
        0 <= mi < s.len(),
        0 <= ei < s.len(),
        mi != ei,
        s[ei].position() == dest,
        moved.position() == dest,
        moved.kind() == s[mi].kind(),
        moved.color() == s[mi].color(),
    ensures
        ({
            let mid = s.update(mi, moved);
            let s2 = mid.update(ei, mid.last()).drop_last();
            &&& all_inside(s2)
            &&& positions_distinct(s2)
            &&& kings_unique(s2)
            &&& s2.len() == s.len() - 1
        }),
{
    let mid = s.update(mi, moved);
    let s2 = mid.update(ei, mid.last()).drop_last();
    let n = s.len() as int;
    assert forall|a: int| 0 <= a < s2.len() implies 0 <= (#[trigger] s2[a]).position().x.0 <= 7 && 0
        <= s2[a].position().y.0 <= 7 by {
        let x = if a == ei {
            n - 1
        } else {
            a
        };
        assert(s2[a] == mid[x]);
        if x == mi {
            assert(mid[x] == moved);
            assert(0 <= s[ei].position().x.0 <= 7 && 0 <= s[ei].position().y.0 <= 7);
        } else {
            assert(mid[x] == s[x]);
        }
    }
    assert forall|a: int, b: int| 0 <= a < b < s2.len() implies (#[trigger] s2[a]).position() != (
    #[trigger] s2[b]).position() by {
        let x = if a == ei {
            n - 1
        } else {
            a
        };
        let y = if b == ei {
            n - 1
        } else {
            b
        };
        assert(s2[a] == mid[x]);
        assert(s2[b] == mid[y]);
        assert(x != y);
        assert(x != ei && y != ei);
        if x == mi {
            assert(mid[y] == s[y]);
            assert(s[y].position() != s[ei].position());
        } else if y == mi {
            assert(mid[x] == s[x]);
            assert(s[x].position() != s[ei].position());
        } else {
            assert(mid[x] == s[x] && mid[y] == s[y]);
        }
    }
    assert forall|a: int, b: int|
        0 <= a < b < s2.len() && (#[trigger] s2[a]).kind() == PieceType::King && (
        #[trigger] s2[b]).kind() == PieceType::King implies s2[a].color() != s2[b].color() by {
        let x = if a == ei {
            n - 1
        } else {
            a
        };
        let y = if b == ei {
            n - 1
        } else {
            b
        };
        assert(s2[a] == mid[x]);
        assert(s2[b] == mid[y]);
        assert(x != y);
        assert(mid[x].kind() == s[x].kind() && mid[x].color() == s[x].color());
        assert(mid[y].kind() == s[y].kind() && mid[y].color() == s[y].color());
    }
}

/// Relocating both castling pieces, onto two distinct squares that no other
/// piece stands on, keeps the piece collection well formed.
proof fn lemma_castling_keeps_wf(s: Seq<Piece>, mi: int, oi: int, dest: Position, cd: Position)
    requires
        all_inside(s),
        positions_distinct(s),
        kings_unique(s),
        0 <= mi < s.len(),
        0 <= oi < s.len(),
        mi != oi,
        dest != cd,
        0 <= dest.x.0 <= 7,
        0 <= dest.y.0 <= 7,
        0 <= cd.x.0 <= 7,
        0 <= cd.y.0 <= 7,
        forall|i: int|
            0 <= i < s.len() && (#[trigger] s[i]).position() != s[mi].position()
                && s[i].position() != s[oi].position() ==> s[i].position() != dest
                && s[i].position() != cd,
    ensures
        ({
            let s2 = s.update(mi, s[mi].relocated(dest)).update(oi, s[oi].relocated(cd));
            &&& all_inside(s2)
            &&& positions_distinct(s2)
            &&& kings_unique(s2)
        }),
{
    let s2 = s.update(mi, s[mi].relocated(dest)).update(oi, s[oi].relocated(cd));
    assert forall|a: int, b: int| 0 <= a < b < s2.len() implies (#[trigger] s2[a]).position() != (
    #[trigger] s2[b]).position() by {
        if a != mi && a != oi {
            assert(s2[a] == s[a]);
            assert(s[a].position() != s[mi].position() && s[a].position() != s[oi].position());
        }
        if b != mi && b != oi {
            assert(s2[b] == s[b]);
            assert(s[b].position() != s[mi].position() && s[b].position() != s[oi].position());
        }
    }
}

/// The fuel a ray walk burns per square. On an 8x8 board a ray can take at
/// most seven squares before leaving the board, so eight is no bound at all:
/// it stands for an unlimited walk.
pub open spec fn ray_fuel(limit: Option<u8>) -> nat {
    match limit {
        Some(l) => l as nat,
        None => 8,
    }
}

/// The executable counterpart of `ray_fuel`.
fn limit_steps(limit: Option<u8>) -> (r: u8)
    ensures
        r as nat == ray_fuel(limit),
{
    match limit {
        Some(l) => l,
        None => 8,
    }
}

} // verus!
