//! The board: placement of the pieces, side to move, en passant target and castling
//! rights, and the physical relocation of a piece.
use vstd::prelude::*;
use vstd::string::*;
use crate::model::{ChessError, Color, Column, Piece, Position, Row, column_char, file_str, rank_str};

verus! {

/// Which castlings each side still has: the king and the rook of that side have not
/// moved, and the rook has not been captured.
#[derive(Debug, Copy, Clone, PartialEq, Eq, Structural)]
pub struct CastlingRights {
    pub white_king_side: bool,
    pub white_queen_side: bool,
    pub black_king_side: bool,
    pub black_queen_side: bool,
}

/// Whether a move from `from` to `to` leaves the square on rank `back`, file index
/// `file` untouched.
pub open spec fn untouched(from: Position, to: Position, back: int, file: int) -> bool {
    !(from.r() == back && from.c() == file) && !(to.r() == back && to.c() == file)
}

impl CastlingRights {
    /// The rights after a move from `from` to `to`: a move from or to a king's or a
    /// rook's starting square ends the rights that depend on it.
    pub open spec fn after(self, from: Position, to: Position) -> CastlingRights {
        CastlingRights {
            white_king_side: self.white_king_side && untouched(from, to, 1, 4) && untouched(
                from,
                to,
                1,
                7,
            ),
            white_queen_side: self.white_queen_side && untouched(from, to, 1, 4) && untouched(
                from,
                to,
                1,
                0,
            ),
            black_king_side: self.black_king_side && untouched(from, to, 8, 4) && untouched(
                from,
                to,
                8,
                7,
            ),
            black_queen_side: self.black_queen_side && untouched(from, to, 8, 4) && untouched(
                from,
                to,
                8,
                0,
            ),
        }
    }

    /// The right of `color` to castle towards the h file (`king_side`) or the a file.
    pub open spec fn allows(self, color: Color, king_side: bool) -> bool {
        match color {
            Color::White => if king_side {
                self.white_king_side
            } else {
                self.white_queen_side
            },
            Color::Black => if king_side {
                self.black_king_side
            } else {
                self.black_queen_side
            },
        }
    }

    pub(crate) fn after_move(&self, from: Position, to: Position) -> (r: CastlingRights)
        requires
            from.wf(),
            to.wf(),
        ensures
            r == self.after(from, to),
    {
        let e1 = touches(from, to, 1, 'e');
        let e8 = touches(from, to, 8, 'e');
        CastlingRights {
            white_king_side: self.white_king_side && !e1 && !touches(from, to, 1, 'h'),
            white_queen_side: self.white_queen_side && !e1 && !touches(from, to, 1, 'a'),
            black_king_side: self.black_king_side && !e8 && !touches(from, to, 8, 'h'),
            black_queen_side: self.black_queen_side && !e8 && !touches(from, to, 8, 'a'),
        }
    }

    pub fn can_castle(&self, color: Color, king_side: bool) -> (r: bool)
        ensures
            r == self.allows(color, king_side),
    {
        match color {
            Color::White => if king_side {
                self.white_king_side
            } else {
                self.white_queen_side
            },
            Color::Black => if king_side {
                self.black_king_side
            } else {
                self.black_queen_side
            },
        }
    }
}

fn touches(from: Position, to: Position, row: Row, column: Column) -> (r: bool)
    requires
        from.wf(),
        to.wf(),
        1 <= row <= 8,
        'a' <= column <= 'h',
    ensures
        r == !untouched(from, to, row as int, column as int - 'a' as int),
{
    (from.row == row && from.column == column) || (to.row == row && to.column == column)
}

/// The mathematical state of a board.
pub struct BoardView {
    pub current: Color,
    pub cells: Seq<Option<Piece>>,
    pub en_passant: Option<Position>,
    pub castling: CastlingRights,
}

/// The piece on rank `r` and file index `c`.
pub open spec fn cell(v: BoardView, r: int, c: int) -> Option<Piece> {
    v.cells[(r - 1) * 8 + c]
}

pub open spec fn free(v: BoardView, r: int, c: int) -> bool {
    cell(v, r, c).is_none()
}

/// Whether the square holds a piece of the other color than `color`.
pub open spec fn enemy(v: BoardView, r: int, c: int, color: Color) -> bool {
    cell(v, r, c) matches Some(p) && p.color() != color
}

/// Whether a piece of `color` may land on the square: it is empty or holds an enemy.
pub open spec fn open_to(v: BoardView, r: int, c: int, color: Color) -> bool {
    free(v, r, c) || enemy(v, r, c, color)
}

impl BoardView {
    pub open spec fn wf(self) -> bool {
        &&& self.cells.len() == 64
        &&& self.en_passant matches Some(e) ==> e.wf()
    }

    pub open spec fn at(self, p: Position) -> Option<Piece> {
        self.cells[p.idx()]
    }

    /// The same board with `color` to move.
    pub open spec fn with_current(self, color: Color) -> BoardView {
        BoardView { current: color, ..self }
    }

    /// Whether the pawn at `from` captures en passant at `to`: it moves diagonally onto an
    /// empty square behind the pawn that has just made its double step.
    pub open spec fn is_en_passant_capture(self, from: Position, to: Position) -> bool {
        &&& self.at(from) matches Some(Piece::Pawn(_))
        &&& from.c() != to.c()
        &&& self.at(to).is_none()
        &&& self.en_passant matches Some(e) && e.r() == from.r() && e.c() == to.c()
    }

    /// Whether moving from `from` to `to` is a king's castling step of two files.
    pub open spec fn is_castling(self, from: Position, to: Position) -> bool {
        &&& self.at(from) matches Some(Piece::King(_))
        &&& from.r() == to.r()
        &&& (to.c() == from.c() + 2 || to.c() == from.c() - 2)
    }

    /// The board after the piece at `from` was lifted and `placed` put on `to`, nothing
    /// else moving; the side to move passes to the other color unless `keep_current`.
    pub open spec fn relocated(self, from: Position, to: Position, placed: Piece, keep_current: bool) -> BoardView {
        let piece = self.at(from).unwrap();
        BoardView {
            current: if keep_current {
                self.current
            } else {
                self.current.other()
            },
            cells: self.cells.update(from.idx(), None).update(to.idx(), Some(placed)),
            en_passant: if piece.is_double_step(from, to) {
                Some(to)
            } else {
                None
            },
            castling: self.castling.after(from, to),
        }
    }

    /// The cells after a move: the relocation, and then for an en passant capture the
    /// removal of the passed pawn; for a castling, the rook the king castles with goes to
    /// the square the king crossed.
    pub open spec fn moved_cells(self, from: Position, to: Position, placed: Piece) -> Seq<
        Option<Piece>,
    > {
        let landed = self.cells.update(from.idx(), None).update(to.idx(), Some(placed));
        let base = (from.r() - 1) * 8;
        if self.is_castling(from, to) {
            let d = if to.c() > from.c() {
                1int
            } else {
                -1int
            };
            let color = self.at(from).unwrap().color();
            match castle_rook(self, from, color, d) {
                Some(rf) => self.cells.update(from.idx(), None).update(base + rf, None).update(
                    base + from.c() + d,
                    Some(Piece::Rook(color)),
                ).update(to.idx(), Some(placed)),
                None => landed,
            }
        } else if self.is_en_passant_capture(from, to) {
            landed.update(base + to.c(), None)
        } else {
            landed
        }
    }

    /// The board after a move with its special cases (see `moved_cells`).
    pub open spec fn moved(self, from: Position, to: Position, placed: Piece, keep_current: bool) -> BoardView {
        BoardView {
            cells: self.moved_cells(from, to, placed),
            ..self.relocated(from, to, placed, keep_current)
        }
    }

    /// Whether the board holds a king of `color`.
    pub open spec fn has_king(self, color: Color) -> bool {
        exists|p: Position| p.wf() && #[trigger] self.at(p) == Some(Piece::King(color))
    }
}

/// The file of the first occupied square of rank `r` met walking from file `c` in
/// direction `d` (1 or -1), if the walk meets one before leaving the board.
pub open spec fn first_occupied(v: BoardView, r: int, c: int, d: int) -> Option<int>
    decreases (if d > 0 {
        8 - c
    } else {
        c + 1
    }),
{
    if d != 1 && d != -1 {
        None
    } else if !(0 <= c + d < 8) {
        None
    } else if !free(v, r, c + d) {
        Some(c + d)
    } else {
        first_occupied(v, r, c + d, d)
    }
}

/// The file of the rook that a king of `color` at `from` castles with in direction `d`:
/// the first occupied square met walking outward, where it holds a rook of that color.
pub open spec fn castle_rook(v: BoardView, from: Position, color: Color, d: int) -> Option<int> {
    match first_occupied(v, from.r(), from.c(), d) {
        Some(f) => if cell(v, from.r(), f) == Some(Piece::Rook(color)) {
            Some(f)
        } else {
            None
        },
        None => None,
    }
}

/// What the walk meets lies on the board, beyond `c` in direction `d`.
pub proof fn lemma_first_occupied_beyond(v: BoardView, r: int, c: int, d: int)
    ensures
        first_occupied(v, r, c, d) matches Some(f) ==> 0 <= f < 8 && (d == 1 ==> f > c) && (d
            == -1 ==> f < c),
    decreases (if d > 0 {
        8 - c
    } else {
        c + 1
    }),
{
    if (d == 1 || d == -1) && 0 <= c + d < 8 && free(v, r, c + d) {
        lemma_first_occupied_beyond(v, r, c + d, d);
    }
}

/// The piece that starts on rank `r`, file index `c`.
pub open spec fn initial_piece(r: int, c: int) -> Option<Piece> {
    let back = |color: Color|
        if c == 0 || c == 7 {
            Piece::Rook(color)
        } else if c == 1 || c == 6 {
            Piece::Knight(color)
        } else if c == 2 || c == 5 {
            Piece::Bishop(color)
        } else if c == 3 {
            Piece::Queen(color)
        } else {
            Piece::King(color)
        };
    if r == 1 {
        Some(back(Color::White))
    } else if r == 2 {
        Some(Piece::Pawn(Color::White))
    } else if r == 7 {
        Some(Piece::Pawn(Color::Black))
    } else if r == 8 {
        Some(back(Color::Black))
    } else {
        None
    }
}

pub open spec fn initial_view() -> BoardView {
    BoardView {
        current: Color::White,
        cells: Seq::new(64, |i: int| initial_piece(i / 8 + 1, i % 8)),
        en_passant: None,
        castling: CastlingRights {
            white_king_side: true,
            white_queen_side: true,
            black_king_side: true,
            black_queen_side: true,
        },
    }
}

fn initial_at(row: u8, c: u8) -> (r: Option<Piece>)
    requires
        1 <= row <= 8,
        c < 8,
    ensures
        r == initial_piece(row as int, c as int),
{
    let color = if row <= 2 {
        Color::White
    } else {
        Color::Black
    };
    if row == 2 || row == 7 {
        Some(Piece::Pawn(color))
    } else if row == 1 || row == 8 {
        if c == 0 || c == 7 {
            Some(Piece::Rook(color))
        } else if c == 1 || c == 6 {
            Some(Piece::Knight(color))
        } else if c == 2 || c == 5 {
            Some(Piece::Bishop(color))
        } else if c == 3 {
            Some(Piece::Queen(color))
        } else {
            Some(Piece::King(color))
        }
    } else {
        None
    }
}

/// The 64 cells of the starting position, rank by rank from rank 1.
pub(crate) fn create_initial_pieces() -> (r: Vec<Option<Piece>>)
    ensures
        r@ == initial_view().cells,
{
    let mut cells: Vec<Option<Piece>> = Vec::new();
    let mut i: usize = 0;
    while i < 64
        invariant
            i <= 64,
            cells@.len() == i,
            forall|j: int| 0 <= j < i ==> cells@[j] == initial_piece(j / 8 + 1, j % 8),
        decreases 64 - i,
    {
        cells.push(initial_at((i / 8 + 1) as u8, (i % 8) as u8));
        i = i + 1;
    }
    proof {
        assert(cells@ =~= initial_view().cells);
    }
    cells
}

/// The header line without its line break: a space, then each file letter framed by
/// spaces, for the first `n` files.
pub open spec fn header_text(n: nat) -> Seq<char>
    decreases n,
{
    if n == 0 {
        seq![' ']
    } else {
        header_text((n - 1) as nat) + seq![' ', ('a' as int + n - 1) as char, ' ']
    }
}

/// A square as text: the piece's code, or two spaces.
pub open spec fn cell_text(v: BoardView, r: int, c: int) -> Seq<char> {
    match cell(v, r, c) {
        Some(p) => p.code(),
        None => seq![' ', ' '],
    }
}

/// Rank `r` as text without its line break: its digit, then each of the first `n`
/// squares after a space.
pub open spec fn rank_text(v: BoardView, r: int, n: nat) -> Seq<char>
    decreases n,
{
    if n == 0 {
        seq![(r + '0' as int) as char]
    } else {
        rank_text(v, r, (n - 1) as nat) + seq![' '] + cell_text(v, r, n - 1)
    }
}

/// The first `k` ranks from the top, rank 8 first, each with a line break.
pub open spec fn ranks_text(v: BoardView, k: nat) -> Seq<char>
    decreases k,
{
    if k == 0 {
        Seq::empty()
    } else {
        ranks_text(v, (k - 1) as nat) + rank_text(v, 9 - k, 8) + seq!['\r', '\n']
    }
}

/// The board drawn as text: the file letters, then rank 8 down to rank 1.
pub open spec fn board_text(v: BoardView) -> Seq<char> {
    header_text(8) + seq!['\r', '\n'] + ranks_text(v, 8)
}

#[derive(Debug, Clone)]
pub struct Board {
    pub(crate) current: Color,
    pub(crate) cells: Vec<Option<Piece>>,
    pub(crate) en_passant: Option<Position>,
    pub(crate) castling: CastlingRights,
}

impl View for Board {
    type V = BoardView;

    open(crate) spec fn view(&self) -> BoardView {
        BoardView {
            current: self.current,
            cells: self.cells@,
            en_passant: self.en_passant,
            castling: self.castling,
        }
    }
}

impl Board {
    pub open spec fn wf(&self) -> bool {
        self@.wf()
    }

    /// The standard starting position, White to move.
    pub fn new() -> (r: Board)
        ensures
            r@ == initial_view(),
            r.wf(),
    {
        Board {
            cells: create_initial_pieces(),
            current: Color::White,
            en_passant: None,
            castling: CastlingRights {
                white_king_side: true,
                white_queen_side: true,
                black_king_side: true,
                black_queen_side: true,
            },
        }
    }

    /// Whether the board is well formed: 64 cells and a valid en passant square.
    pub fn is_valid(&self) -> (r: bool)
        ensures
            r == self.wf(),
    {
        self.cells.len() == 64 && match self.en_passant {
            Some(e) => 1 <= e.row && e.row <= 8 && 'a' <= e.column && e.column <= 'h',
            None => true,
        }
    }

    pub fn get_current(&self) -> (r: Color)
        ensures
            r == self@.current,
    {
        self.current
    }

    pub fn get_en_passant_target(&self) -> (r: Option<Position>)
        ensures
            r == self@.en_passant,
    {
        self.en_passant
    }

    pub fn get_castling_rights(&self) -> (r: CastlingRights)
        ensures
            r == self@.castling,
    {
        self.castling
    }

    /// The 64 cells, rank by rank from rank 1, files a to h within a rank.
    pub fn get_pieces(&self) -> (r: &Vec<Option<Piece>>)
        ensures
            r@ == self@.cells,
    {
        &self.cells
    }

    pub fn get(&self, position: Position) -> (r: Option<&Piece>)
        requires
            self.wf(),
            position.wf(),
        ensures
            r.is_some() == self@.at(position).is_some(),
            r matches Some(p) ==> self@.at(position) == Some(*p),
    {
        self.cells[position.index()].as_ref()
    }

    pub(crate) fn piece_at(&self, position: Position) -> (r: Option<Piece>)
        requires
            self.wf(),
            position.wf(),
        ensures
            r == self@.at(position),
    {
        self.cells[position.index()]
    }

    pub fn is_empty(&self, position: Position) -> (r: bool)
        requires
            self.wf(),
            position.wf(),
        ensures
            r == self@.at(position).is_none(),
    {
        self.piece_at(position).is_none()
    }

    /// The same board with `color` to move.
    pub(crate) fn with_current(&self, color: Color) -> (r: Board)
        requires
            self.wf(),
        ensures
            r@ == self@.with_current(color),
    {
        Board {
            current: color,
            cells: copy_vec(&self.cells),
            en_passant: self.en_passant,
            castling: self.castling,
        }
    }

    /// Whether the board holds a king of `color`.
    pub fn has_king(&self, color: Color) -> (r: bool)
        requires
            self.wf(),
        ensures
            r == self@.has_king(color),
    {
        self.find_king(color).is_some()
    }

    /// The first square, rank by rank, that holds a king of `color`.
    pub(crate) fn find_king(&self, color: Color) -> (r: Option<Position>)
        requires
            self.wf(),
        ensures
            r matches Some(p) ==> p.wf() && self@.at(p) == Some(Piece::King(color)),
            r.is_none() ==> !self@.has_king(color),
    {
        let mut i: usize = 0;
        while i < 64
            invariant
                self.wf(),
                i <= 64,
                forall|j: int| 0 <= j < i ==> self@.cells[j] != Some(Piece::King(color)),
            decreases 64 - i,
        {
            if self.cells[i] == Some(Piece::King(color)) {
                let p = Position::from_index(i);
                return Some(p);
            }
            i = i + 1;
        }
        proof {
            assert forall|p: Position| p.wf() implies #[trigger] self@.at(p) != Some(
                Piece::King(color),
            ) by {
                assert(0 <= p.idx() < 64);
            }
        }
        None
    }

    /// The square of the king of the side to move.
    pub fn get_current_king_position(&self) -> (r: Position)
        requires
            self.wf(),
            self@.has_king(self@.current),
        ensures
            r.wf(),
            self@.at(r) == Some(Piece::King(self@.current)),
    {
        match self.find_king(self.current) {
            Some(p) => p,
            None => {
                proof {
                    assert(false);
                }
                Position::from_index(0)
            },
        }
    }

    /// The square of the king of the side not to move.
    pub fn get_oppenent_king_position(&self) -> (r: Position)
        requires
            self.wf(),
            self@.has_king(self@.current.other()),
        ensures
            r.wf(),
            self@.at(r) == Some(Piece::King(self@.current.other())),
    {
        match self.find_king(self.current.opponent()) {
            Some(p) => p,
            None => {
                proof {
                    assert(false);
                }
                Position::from_index(0)
            },
        }
    }

    /// Whether the king of the side to move is in check.
    pub fn is_check(&self) -> (r: bool)
        requires
            self.wf(),
            self@.has_king(self@.current),
        ensures
            r == crate::check_verifier::in_check(self@),
    {
        crate::check_verifier::CheckVerifier.is_check(self)
    }

    /// Whether the side to move has a piece at `from` that may legally go to `to`.
    pub fn can_move(&self, from: Position, to: Position) -> (r: bool)
        requires
            self.wf(),
            self@.has_king(self@.current),
            from.wf(),
            to.wf(),
        ensures
            r == crate::movement::allowed(self@, from, to),
    {
        crate::movement::is_allowed(self, from, to)
    }

    /// The board drawn as text, rank 8 at the top.
    pub fn to_string(&self) -> (r: String)
        requires
            self.wf(),
        ensures
            r@ == board_text(self@),
    {
        proof {
            reveal_strlit(" ");
            reveal_strlit("  ");
            reveal_strlit("\r\n");
        }
        let ghost v = self@;
        let mut result = String::from_str(" ");
        let mut c: u8 = 0;
        while c < 8
            invariant
                c <= 8,
                result@ == header_text(c as nat),
            decreases 8 - c,
        {
            let ghost before = result@;
            let file = file_str(c);
            result.append(" ");
            result.append(file);
            result.append(" ");
            proof {
                reveal_strlit(" ");
                assert(" "@ =~= seq![' ']);
                assert(header_text((c + 1) as nat) == before + seq![' ', ('a' as int + c) as char, ' ']);
                assert(result@ =~= header_text((c + 1) as nat));
            }
            c = c + 1;
        }
        result.append("\r\n");
        let mut k: u8 = 0;
        while k < 8
            invariant
                self.wf(),
                v == self@,
                k <= 8,
                result@ == header_text(8) + seq!['\r', '\n'] + ranks_text(v, k as nat),
            decreases 8 - k,
        {
            let row = 8 - k;
            let mut line = String::from_str(rank_str(row));
            let mut c: u8 = 0;
            while c < 8
                invariant
                    self.wf(),
                    v == self@,
                    c <= 8,
                    1 <= row <= 8,
                    line@ == rank_text(v, row as int, c as nat),
                decreases 8 - c,
            {
                let ghost before = line@;
                line.append(" ");
                let square = Position { row, column: column_char(c) };
                match self.piece_at(square) {
                    Some(p) => line.append(p.to_string()),
                    None => line.append("  "),
                }
                proof {
                    reveal_strlit(" ");
                    reveal_strlit("  ");
                    assert(" "@ =~= seq![' ']);
                    assert("  "@ =~= seq![' ', ' ']);
                    assert(square.r() == row as int && square.c() == c as int);
                    assert(rank_text(v, row as int, (c + 1) as nat) == before + seq![' '] + cell_text(v, row as int, c as int));
                    assert(line@ =~= rank_text(v, row as int, (c + 1) as nat));
                }
                c = c + 1;
            }
            let ghost before = result@;
            result.append(line.as_str());
            result.append("\r\n");
            proof {
                reveal_strlit("\r\n");
                assert("\r\n"@ =~= seq!['\r', '\n']);
                assert(ranks_text(v, (k + 1) as nat) == ranks_text(v, k as nat) + rank_text(v, 9 - (k + 1), 8) + seq!['\r', '\n']);
                assert(result@ =~= header_text(8) + seq!['\r', '\n'] + ranks_text(v, (k + 1) as nat));
            }
            k = k + 1;
        }
        result
    }

    /// Relocates the piece at `from` to `to`, whether or not the move is legal: the piece
    /// leaves `from` and replaces whatever stood on `to`, a pawn reaching its last rank
    /// becoming `promote`; no other square changes. Fails, leaving nothing changed, where
    /// the promotion is missing or not allowed.
    pub fn move_piece(&self, from: Position, to: Position, keep_current: bool, promote: Option<
        Piece,
    >) -> (r: Result<Board, ChessError>)
        requires
            self.wf(),
            from.wf(),
            to.wf(),
            self@.at(from).is_some(),
        ensures
            match self@.at(from).unwrap().promotion_result(to, promote) {
                Ok(placed) => r matches Ok(b) && b.wf() && b@ == self@.relocated(
                    from,
                    to,
                    placed,
                    keep_current,
                ),
                Err(e) => r == Err::<Board, ChessError>(e),
            },
    {
        let piece = self.piece_at(from).unwrap();
        let placed = match piece.validate_promotion(to, promote) {
            Ok(p) => p,
            Err(e) => return Err(e),
        };
        let mut cells = copy_vec(&self.cells);
        cells.set(from.index(), None);
        cells.set(to.index(), Some(placed));
        Ok(
            Board {
                current: if keep_current {
                    self.current
                } else {
                    self.current.opponent()
                },
                cells,
                en_passant: piece.get_en_passant(from, to),
                castling: self.castling.after_move(from, to),
            },
        )
    }

    /// The file of the first occupied square met walking from `from` along its rank in
    /// direction `d`.
    pub(crate) fn first_occupied_file(&self, from: Position, d: i8) -> (r: Option<u8>)
        requires
            self.wf(),
            from.wf(),
            d == 1 || d == -1,
        ensures
            match r {
                Some(f) => f < 8 && first_occupied(self@, from.r(), from.c(), d as int) == Some(
                    f as int,
                ),
                None => first_occupied(self@, from.r(), from.c(), d as int).is_none(),
            },
    {
        let ghost v = self@;
        let mut c: i8 = (from.column as u32 - 'a' as u32) as i8;
        loop
            invariant
                self.wf(),
                v == self@,
                from.wf(),
                d == 1 || d == -1,
                0 <= c < 8,
                first_occupied(v, from.r(), from.c(), d as int) == first_occupied(
                    v,
                    from.r(),
                    c as int,
                    d as int,
                ),
            decreases (if d > 0 {
                8 - c
            } else {
                c + 1
            }),
        {
            let next: i8 = c + d;
            if next < 0 || next >= 8 {
                return None;
            }
            let sq = Position { row: from.row, column: column_char(next as u8) };
            if !self.is_empty(sq) {
                return Some(next as u8);
            }
            c = next;
        }
    }

    /// Puts `piece` (or nothing) on `position`.
    pub(crate) fn set_square(&mut self, position: Position, piece: Option<Piece>)
        requires
            old(self).wf(),
            position.wf(),
        ensures
            final(self)@ == (BoardView {
                cells: old(self)@.cells.update(position.idx(), piece),
                ..old(self)@
            }),
            final(self).wf(),
    {
        self.cells.set(position.index(), piece);
    }
}

/// A copy of the elements, one by one.
pub(crate) fn copy_vec<T: Copy>(v: &Vec<T>) -> (r: Vec<T>)
    ensures
        r@ == v@,
{
    let mut r: Vec<T> = Vec::new();
    let mut i: usize = 0;
    while i < v.len()
        invariant
            i <= v@.len(),
            r@ == v@.subrange(0, i as int),
        decreases v@.len() - i,
    {
        r.push(v[i]);
        i = i + 1;
    }
    proof {
        assert(r@ =~= v@);
    }
    r
}

} // verus!
