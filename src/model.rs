//! Colors, pieces, squares and the board.
use vstd::prelude::*;
use vstd::string::*;

verus! {

pub type Row = u8;

pub type Column = char;

pub const FIRST_ROW: Row = 1;

pub const LAST_ROW: Row = 8;

pub const FIRST_COLUMN: Column = 'a';

pub const LAST_COLUMN: Column = 'h';

#[derive(Debug, PartialEq, Copy, Clone, Eq, Hash, Structural)]
pub enum Color {
    Black,
    White,
}

impl Color {
    pub open spec fn other(self) -> Color {
        match self {
            Color::Black => Color::White,
            Color::White => Color::Black,
        }
    }

    pub fn opponent(&self) -> (r: Color)
        ensures
            r == self.other(),
    {
        match self {
            Color::Black => Color::White,
            Color::White => Color::Black,
        }
    }

    /// The rank direction in which pawns of this color advance.
    pub open spec fn forward(self) -> int {
        match self {
            Color::White => 1,
            Color::Black => -1,
        }
    }

    /// The rank on which pawns of this color start.
    pub open spec fn pawn_home_row(self) -> int {
        match self {
            Color::White => 2,
            Color::Black => 7,
        }
    }

    /// The rank on which the king and rooks of this color start.
    pub open spec fn back_row(self) -> int {
        match self {
            Color::White => 1,
            Color::Black => 8,
        }
    }

    /// The rank on which a pawn of this color promotes.
    pub open spec fn last_row(self) -> int {
        match self {
            Color::White => 8,
            Color::Black => 1,
        }
    }
}

/// A square: a rank in 1..=8 and a file in 'a'..='h'.
#[derive(PartialEq, Debug, Copy, Clone, Eq, Hash, Structural)]
pub struct Position {
    pub(crate) row: Row,
    pub(crate) column: Column,
}

/// Whether rank `r` and file index `c` lie on the board.
pub open spec fn on_board(r: int, c: int) -> bool {
    1 <= r <= 8 && 0 <= c < 8
}

impl Position {
    pub open(crate) spec fn wf(self) -> bool {
        1 <= self.row <= 8 && 'a' <= self.column <= 'h'
    }

    pub open(crate) spec fn r(self) -> int {
        self.row as int
    }

    pub open(crate) spec fn c(self) -> int {
        self.column as int - 'a' as int
    }

    /// Index of the square in the board's 64 cells, rank by rank.
    pub open spec fn idx(self) -> int {
        (self.r() - 1) * 8 + self.c()
    }

    /// The two characters of algebraic notation: file letter, then rank digit.
    pub open(crate) spec fn text(self) -> Seq<char> {
        seq![self.column, (self.row as int + '0' as int) as char]
    }

    pub fn new(row: Row, column: Column) -> (r: Position)
        requires
            FIRST_ROW <= row <= LAST_ROW,
            FIRST_COLUMN <= column <= LAST_COLUMN,
        ensures
            r.r() == row as int,
            r.c() == column as int - 'a' as int,
            r.wf(),
    {
        Position { row, column }
    }

    pub fn row(&self) -> (r: Row)
        ensures
            r as int == self.r(),
    {
        self.row
    }

    pub fn column(&self) -> (r: Column)
        ensures
            r as int - 'a' as int == self.c(),
    {
        self.column
    }

    pub fn move_upwards(&self, to: Position) -> (r: bool)
        ensures
            r == (self.r() < to.r()),
    {
        self.row < to.row
    }

    pub fn move_downwards(&self, to: Position) -> (r: bool)
        ensures
            r == (self.r() > to.r()),
    {
        self.row > to.row
    }

    /// The square `row_inc` ranks and `column_inc` files away, if it is on the board.
    pub fn inc(&self, row_inc: i8, column_inc: i8) -> (r: Option<Position>)
        requires
            self.wf(),
        ensures
            r.is_some() == on_board(self.r() + row_inc, self.c() + column_inc),
            r matches Some(q) ==> q.wf() && q.r() == self.r() + row_inc && q.c() == self.c()
                + column_inc,
    {
        let new_row: i16 = self.row as i16 + row_inc as i16;
        let new_column: i16 = (self.column as u32 - 'a' as u32) as i16 + column_inc as i16;
        if 1 <= new_row && new_row <= 8 && 0 <= new_column && new_column < 8 {
            Some(Position { row: new_row as u8, column: column_char(new_column as u8) })
        } else {
            None
        }
    }

    /// Index of the square in the board's cells.
    pub fn index(&self) -> (r: usize)
        requires
            self.wf(),
        ensures
            r as int == self.idx(),
            r < 64,
    {
        ((self.row - 1) as usize) * 8 + (self.column as u32 - 'a' as u32) as usize
    }

    /// The square with the given cell index.
    pub fn from_index(i: usize) -> (r: Position)
        requires
            i < 64,
        ensures
            r.wf(),
            r.idx() == i,
    {
        Position { row: (i / 8 + 1) as u8, column: column_char((i % 8) as u8) }
    }

    /// Parses two-character algebraic notation, file letter first ("e2").
    pub fn from(position: String) -> (r: Result<Position, ChessError>)
        ensures
            r == parse_position(position@),
    {
        let position = position.as_str();
        if position.unicode_len() != 2 {
            return Err(ChessError::InvalidPosition);
        }
        let column = position.get_char(0);
        let digit = position.get_char(1);
        if '1' <= digit && digit <= '8' && FIRST_COLUMN <= column && column <= LAST_COLUMN {
            let row = (digit as u32 - '0' as u32) as u8;
            Ok(Position { row, column })
        } else {
            Err(ChessError::InvalidPosition)
        }
    }

    /// The square in algebraic notation, file letter then rank digit ("e2").
    pub fn to_string(&self) -> (r: String)
        requires
            self.wf(),
        ensures
            r@ == self.text(),
    {
        let c = (self.column as u32 - 'a' as u32) as u8;
        let mut r = String::from_str(file_str(c));
        r.append(rank_str(self.row));
        proof {
            assert(r@ =~= self.text());
        }
        r
    }
}

/// The letter of file index `c`.
pub(crate) fn file_str(c: u8) -> (r: &'static str)
    requires
        c < 8,
    ensures
        r@ == seq![('a' as int + c) as char],
{
    proof {
        reveal_strlit("a");
        reveal_strlit("b");
        reveal_strlit("c");
        reveal_strlit("d");
        reveal_strlit("e");
        reveal_strlit("f");
        reveal_strlit("g");
        reveal_strlit("h");
    }
    match c {
        0 => "a",
        1 => "b",
        2 => "c",
        3 => "d",
        4 => "e",
        5 => "f",
        6 => "g",
        _ => "h",
    }
}

/// The digit of rank `r`.
pub(crate) fn rank_str(r: u8) -> (s: &'static str)
    requires
        1 <= r <= 8,
    ensures
        s@ == seq![(r as int + '0' as int) as char],
{
    proof {
        reveal_strlit("1");
        reveal_strlit("2");
        reveal_strlit("3");
        reveal_strlit("4");
        reveal_strlit("5");
        reveal_strlit("6");
        reveal_strlit("7");
        reveal_strlit("8");
    }
    match r {
        1 => "1",
        2 => "2",
        3 => "3",
        4 => "4",
        5 => "5",
        6 => "6",
        7 => "7",
        _ => "8",
    }
}

/// What parsing a square's notation gives.
pub open(crate) spec fn parse_position(s: Seq<char>) -> Result<Position, ChessError> {
    if s.len() == 2 && '1' <= s[1] <= '8' && 'a' <= s[0] <= 'h' {
        Ok(Position { row: (s[1] as int - '0' as int) as u8, column: s[0] })
    } else {
        Err(ChessError::InvalidPosition)
    }
}

/// Two squares with the same coordinates are the same square.
pub proof fn lemma_position_eq(p: Position, q: Position)
    requires
        p.wf(),
        q.wf(),
        p.r() == q.r(),
        p.c() == q.c(),
    ensures
        p == q,
{
}

/// Two valid squares with the same cell index are the same square.
pub proof fn lemma_index_injective(p: Position, q: Position)
    requires
        p.wf(),
        q.wf(),
        p.idx() == q.idx(),
    ensures
        p == q,
{
}

/// Parsing a square's own notation gives the square back.
pub proof fn lemma_parse_round_trip(p: Position)
    requires
        p.wf(),
    ensures
        parse_position(p.text()) == Ok::<Position, ChessError>(p),
{
    let s = p.text();
    assert(s[0] == p.column);
    assert(s[1] == (p.row as int + '0' as int) as char);
    assert((s[1] as int - '0' as int) as u8 == p.row);
}

/// The file letter for a file index.
pub fn column_char(i: u8) -> (r: char)
    requires
        i < 8,
    ensures
        r as int == 'a' as int + i as int,
{
    (i + 97u8) as char
}

/// The errors of parsing input and of playing moves.
#[derive(Debug, PartialEq, Copy, Clone, Eq, Structural)]
pub enum ChessError {
    /// Text that is not a square in algebraic notation.
    InvalidPosition,
    /// A name that is not a piece kind.
    InvalidPiece,
    /// The side to move has no piece at `from` that may go to `to`.
    MoveNotAllowed { from: Position, to: Position },
    /// A pawn reaches its last rank and no piece to promote to was given.
    PromotionRequired,
    /// The piece given to promote to is not a queen, rook, bishop or knight of the pawn's color.
    InvalidPromotion(Piece),
    /// The board has no king of this color: an internal inconsistency, not a user error.
    MissingKing(Color),
}

#[derive(Debug, Copy, Clone, PartialEq, Eq, Hash, Structural)]
pub enum Piece {
    King(Color),
    Queen(Color),
    Bishop(Color),
    Knight(Color),
    Rook(Color),
    Pawn(Color),
}

/// The pieces a pawn of this color may promote to.
pub open spec fn is_promotion_choice(p: Piece, color: Color) -> bool {
    p == Piece::Bishop(color) || p == Piece::Knight(color) || p == Piece::Queen(color) || p
        == Piece::Rook(color)
}

pub fn get_white_promotions() -> (r: Vec<Piece>)
    ensures
        r@ == seq![
            Piece::Bishop(Color::White),
            Piece::Knight(Color::White),
            Piece::Queen(Color::White),
            Piece::Rook(Color::White),
        ],
{
    vec![
        Piece::Bishop(Color::White),
        Piece::Knight(Color::White),
        Piece::Queen(Color::White),
        Piece::Rook(Color::White),
    ]
}

pub fn get_black_promotions() -> (r: Vec<Piece>)
    ensures
        r@ == seq![
            Piece::Bishop(Color::Black),
            Piece::Knight(Color::Black),
            Piece::Queen(Color::Black),
            Piece::Rook(Color::Black),
        ],
{
    vec![
        Piece::Bishop(Color::Black),
        Piece::Knight(Color::Black),
        Piece::Queen(Color::Black),
        Piece::Rook(Color::Black),
    ]
}

impl Piece {
    pub open spec fn color(self) -> Color {
        match self {
            Piece::King(c) => c,
            Piece::Queen(c) => c,
            Piece::Bishop(c) => c,
            Piece::Knight(c) => c,
            Piece::Rook(c) => c,
            Piece::Pawn(c) => c,
        }
    }

    pub fn get_color(&self) -> (r: Color)
        ensures
            r == self.color(),
    {
        match self {
            Piece::Pawn(color)
            | Piece::Queen(color)
            | Piece::Bishop(color)
            | Piece::Knight(color)
            | Piece::Rook(color)
            | Piece::King(color) => *color,
        }
    }

    pub fn is_white(&self) -> (r: bool)
        ensures
            r == (self.color() == Color::White),
    {
        match self.get_color() {
            Color::White => true,
            Color::Black => false,
        }
    }

    /// The two-letter code of the piece: kind (H for knight), then color.
    pub open spec fn code(self) -> Seq<char> {
        match self {
            Piece::Bishop(Color::Black) => seq!['B', 'B'],
            Piece::Bishop(Color::White) => seq!['B', 'W'],
            Piece::King(Color::Black) => seq!['K', 'B'],
            Piece::King(Color::White) => seq!['K', 'W'],
            Piece::Knight(Color::Black) => seq!['H', 'B'],
            Piece::Knight(Color::White) => seq!['H', 'W'],
            Piece::Pawn(Color::Black) => seq!['P', 'B'],
            Piece::Pawn(Color::White) => seq!['P', 'W'],
            Piece::Queen(Color::Black) => seq!['Q', 'B'],
            Piece::Queen(Color::White) => seq!['Q', 'W'],
            Piece::Rook(Color::Black) => seq!['R', 'B'],
            Piece::Rook(Color::White) => seq!['R', 'W'],
        }
    }

    pub fn to_string(&self) -> (r: &'static str)
        ensures
            r@ == self.code(),
    {
        let r = match *self {
            Piece::Bishop(Color::Black) => "BB",
            Piece::Bishop(Color::White) => "BW",
            Piece::King(Color::Black) => "KB",
            Piece::King(Color::White) => "KW",
            Piece::Knight(Color::Black) => "HB",
            Piece::Knight(Color::White) => "HW",
            Piece::Pawn(Color::Black) => "PB",
            Piece::Pawn(Color::White) => "PW",
            Piece::Queen(Color::Black) => "QB",
            Piece::Queen(Color::White) => "QW",
            Piece::Rook(Color::Black) => "RB",
            Piece::Rook(Color::White) => "RW",
        };
        proof {
            reveal_strlit("BB");
            reveal_strlit("BW");
            reveal_strlit("KB");
            reveal_strlit("KW");
            reveal_strlit("HB");
            reveal_strlit("HW");
            reveal_strlit("PB");
            reveal_strlit("PW");
            reveal_strlit("QB");
            reveal_strlit("QW");
            reveal_strlit("RB");
            reveal_strlit("RW");
        }
        r
    }

    /// Whether moving this piece from `from` to `to` is a pawn's double step.
    pub open spec fn is_double_step(self, from: Position, to: Position) -> bool {
        &&& self matches Piece::Pawn(c)
        &&& from.c() == to.c()
        &&& from.r() == c.pawn_home_row()
        &&& to.r() == from.r() + 2 * c.forward()
    }

    /// The en passant target that moving this piece from `from` to `to` leaves: the
    /// square of a pawn that has just made its double step.
    pub fn get_en_passant(&self, from: Position, to: Position) -> (r: Option<Position>)
        ensures
            r == (if self.is_double_step(from, to) {
                Some(to)
            } else {
                None::<Position>
            }),
    {
        match *self {
            Piece::Pawn(Color::White) => {
                if from.row == FIRST_ROW + 1 && from.column == to.column && to.row == 4 {
                    Some(to)
                } else {
                    None
                }
            },
            Piece::Pawn(Color::Black) => {
                if from.row == LAST_ROW - 1 && from.column == to.column && to.row == 5 {
                    Some(to)
                } else {
                    None
                }
            },
            _ => None,
        }
    }

    /// Whether this piece is a pawn that reaches its last rank at `to`.
    pub open spec fn promotes_at(self, to: Position) -> bool {
        self matches Piece::Pawn(c) && to.r() == c.last_row()
    }

    /// What `validate_promotion` gives.
    pub open spec fn promotion_result(self, to: Position, promote: Option<Piece>) -> Result<
        Piece,
        ChessError,
    > {
        if self.promotes_at(to) {
            match promote {
                None => Err(ChessError::PromotionRequired),
                Some(p) => if is_promotion_choice(p, self.color()) {
                    Ok(p)
                } else {
                    Err(ChessError::InvalidPromotion(p))
                },
            }
        } else {
            Ok(self)
        }
    }

    /// The piece that lands on `to`: the promotion choice for a pawn reaching its last
    /// rank, else this piece itself (an unneeded choice is ignored).
    pub fn validate_promotion(&self, to: Position, promote: Option<Piece>) -> (r: Result<
        Piece,
        ChessError,
    >)
        ensures
            r == self.promotion_result(to, promote),
    {
        let is_promotion = match *self {
            Piece::Pawn(Color::White) => to.row == LAST_ROW,
            Piece::Pawn(Color::Black) => to.row == FIRST_ROW,
            _ => false,
        };
        if is_promotion {
            match promote {
                None => Err(ChessError::PromotionRequired),
                Some(p) => {
                    let color = self.get_color();
                    let valid = match p {
                        Piece::Bishop(c) | Piece::Knight(c) | Piece::Queen(c) | Piece::Rook(
                            c,
                        ) => c == color,
                        _ => false,
                    };
                    if valid {
                        Ok(p)
                    } else {
                        Err(ChessError::InvalidPromotion(p))
                    }
                },
            }
        } else {
            Ok(*self)
        }
    }

    /// The promotion used when trying a move out: a queen for a pawn reaching its last rank.
    pub open spec fn default_promotion(self, to: Position) -> Option<Piece> {
        if self.promotes_at(to) {
            Some(Piece::Queen(self.color()))
        } else {
            None
        }
    }

    pub fn get_valid_promotion(&self, to: Position) -> (r: Option<Piece>)
        ensures
            r == self.default_promotion(to),
            self.promotion_result(to, r).is_ok(),
    {
        match *self {
            Piece::Pawn(Color::White) => if to.row == LAST_ROW {
                Some(Piece::Queen(Color::White))
            } else {
                None
            },
            Piece::Pawn(Color::Black) => if to.row == FIRST_ROW {
                Some(Piece::Queen(Color::Black))
            } else {
                None
            },
            _ => None,
        }
    }
}

/// Whether `s` holds exactly the characters of `lit`.
fn text_is(s: &str, lit: &str) -> (r: bool)
    ensures
        r == (s@ == lit@),
{
    let n = s.unicode_len();
    if n != lit.unicode_len() {
        return false;
    }
    let mut i: usize = 0;
    while i < n
        invariant
            n == s@.len(),
            n == lit@.len(),
            i <= n,
            forall|j: int| 0 <= j < i ==> s@[j] == lit@[j],
        decreases n - i,
    {
        if s.get_char(i) != lit.get_char(i) {
            return false;
        }
        i = i + 1;
    }
    proof {
        assert(s@ =~= lit@);
    }
    true
}

/// The piece kind that a name denotes ("King", "Queen", ...), in the given color.
pub open spec fn piece_named(name: Seq<char>, color: Color) -> Result<Piece, ChessError> {
    if name == "King"@ {
        Ok(Piece::King(color))
    } else if name == "Queen"@ {
        Ok(Piece::Queen(color))
    } else if name == "Pawn"@ {
        Ok(Piece::Pawn(color))
    } else if name == "Knight"@ {
        Ok(Piece::Knight(color))
    } else if name == "Rook"@ {
        Ok(Piece::Rook(color))
    } else if name == "Bishop"@ {
        Ok(Piece::Bishop(color))
    } else {
        Err(ChessError::InvalidPiece)
    }
}

pub fn to_piece(piece: String, color: Color) -> (r: Result<Piece, ChessError>)
    ensures
        r == piece_named(piece@, color),
{
    let piece = piece.as_str();
    proof {
        reveal_strlit("King");
        reveal_strlit("Queen");
        reveal_strlit("Pawn");
        reveal_strlit("Knight");
        reveal_strlit("Rook");
        reveal_strlit("Bishop");
    }
    if text_is(piece, "King") {
        return Ok(Piece::King(color));
    }
    if text_is(piece, "Queen") {
        return Ok(Piece::Queen(color));
    }
    if text_is(piece, "Pawn") {
        return Ok(Piece::Pawn(color));
    }
    if text_is(piece, "Knight") {
        return Ok(Piece::Knight(color));
    }
    if text_is(piece, "Rook") {
        return Ok(Piece::Rook(color));
    }
    if text_is(piece, "Bishop") {
        return Ok(Piece::Bishop(color));
    }
    Err(ChessError::InvalidPiece)
}

} // verus!
