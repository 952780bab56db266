//! Playing a move: the single entry point that checks a move against the legal moves of
//! the side to move and then performs it.
use vstd::prelude::*;
use crate::allowed_movement::{
    differ_in_kind_at, lemma_check_ignores_kind, legal_moves, legal_target, tried,
};
use crate::board::{Board, BoardView};
use crate::check_verifier::{holds_color, in_check};
use crate::model::{ChessError, Piece, Position, column_char};

verus! {

/// Whether the side to move has a piece at `from` that may legally go to `to`.
pub open spec fn allowed(v: BoardView, from: Position, to: Position) -> bool {
    holds_color(v, from, v.current) && legal_target(v, from, to)
}

/// What playing `from` to `to` with `promote` gives: the error for a move that is not
/// allowed or a missing or wrong promotion, else the board after the move with the other
/// side to move.
pub open spec fn played(v: BoardView, from: Position, to: Position, promote: Option<Piece>) -> Result<
    BoardView,
    ChessError,
> {
    if !allowed(v, from, to) {
        Err(ChessError::MoveNotAllowed { from, to })
    } else {
        match v.at(from).unwrap().promotion_result(to, promote) {
            Ok(placed) => Ok(v.moved(from, to, placed, false)),
            Err(e) => Err(e),
        }
    }
}

/// Whether `p` is among `positions`.
pub fn contains_position(positions: &Vec<Position>, p: Position) -> (r: bool)
    ensures
        r == positions@.contains(p),
{
    let mut i: usize = 0;
    while i < positions.len()
        invariant
            i <= positions@.len(),
            forall|j: int| 0 <= j < i ==> positions@[j] != p,
        decreases positions@.len() - i,
    {
        if positions[i] == p {
            proof {
                assert(positions@[i as int] == p);
            }
            return true;
        }
        i = i + 1;
    }
    false
}

/// Whether the side to move has a piece at `from` that may legally go to `to`.
pub fn is_allowed(board: &Board, from: Position, to: Position) -> (r: bool)
    requires
        board.wf(),
        board@.has_king(board@.current),
        from.wf(),
        to.wf(),
    ensures
        r == allowed(board@, from, to),
{
    match board.piece_at(from) {
        Some(piece) => {
            if piece.get_color() != board.get_current() {
                return false;
            }
            let targets = legal_moves(board, from);
            contains_position(&targets, to)
        },
        None => false,
    }
}

/// A move that is played never leaves the mover's own king in check: seen from the side
/// that moved, the new board is not in check, whichever piece a pawn promotes to.
pub proof fn lemma_played_move_leaves_king_safe(
    v: BoardView,
    from: Position,
    to: Position,
    promote: Option<Piece>,
)
    requires
        v.wf(),
        from.wf(),
        to.wf(),
    ensures
        played(v, from, to, promote) matches Ok(w) ==> !in_check(w.with_current(v.current)),
{
    if let Ok(w) = played(v, from, to, promote) {
        let piece = v.at(from).unwrap();
        let c = v.current;
        let placed = piece.promotion_result(to, promote).unwrap();
        let sim = tried(v, from, to);
        let seen = w.with_current(c);
        assert(piece.color() == c);
        if piece.promotes_at(to) {
            assert forall|i: int| 0 <= i < 64 && i != to.idx() implies #[trigger] sim.cells[i]
                == seen.cells[i] by {}
            assert(sim.cells.len() == 64);
            assert(seen.cells.len() == 64);
            assert(differ_in_kind_at(sim, seen, to, c));
            lemma_check_ignores_kind(sim, seen, to);
        } else {
            assert(seen == sim);
        }
    }
}

/// Performs the move from `from` to `to`, legal or not: the relocation of
/// `Board::move_piece`, then the removal of a pawn taken en passant, or the rook's move
/// in a castling.
#[verifier::rlimit(50)]
pub(crate) fn perform_move(
    board: &Board,
    from: Position,
    to: Position,
    keep_current: bool,
    promote: Option<Piece>,
) -> (r: Result<Board, ChessError>)
    requires
        board.wf(),
        from.wf(),
        to.wf(),
        board@.at(from).is_some(),
    ensures
        match board@.at(from).unwrap().promotion_result(to, promote) {
            Ok(placed) => r matches Ok(b) && b.wf() && b@ == board@.moved(
                from,
                to,
                placed,
                keep_current,
            ),
            Err(e) => r == Err::<Board, ChessError>(e),
        },
{
    let ghost v = board@;
    let piece = board.piece_at(from).unwrap();
    let en_passant_capture = match piece {
        Piece::Pawn(_) => {
            from.column != to.column && board.piece_at(to).is_none()
                && match board.get_en_passant_target() {
                Some(e) => e.row == from.row && e.column == to.column,
                None => false,
            }
        },
        _ => false,
    };
    let castling = match piece {
        Piece::King(_) => from.row == to.row && (to.column as u32 == from.column as u32 + 2
            || to.column as u32 + 2 == from.column as u32),
        _ => false,
    };
    let mut b = match board.move_piece(from, to, keep_current, promote) {
        Ok(b) => b,
        Err(e) => return Err(e),
    };
    let ghost placed = piece.promotion_result(to, promote).unwrap();
    if castling {
        let d: i8 = if to.column > from.column {
            1
        } else {
            -1
        };
        let color = piece.get_color();
        if let Some(rf) = board.first_occupied_file(from, d) {
            let rook_square = Position { row: from.row, column: column_char(rf) };
            if board.piece_at(rook_square) == Some(Piece::Rook(color)) {
                let landed = b.piece_at(to);
                let from_c = (from.column as u32 - 'a' as u32) as i8;
                let crossed = Position { row: from.row, column: column_char((from_c + d) as u8) };
                b.set_square(rook_square, None);
                b.set_square(crossed, Some(Piece::Rook(color)));
                b.set_square(to, landed);
            }
        }
    } else if en_passant_capture {
        b.set_square(Position { row: from.row, column: to.column }, None);
    }
    proof {
        assert(b@.cells =~= v.moved_cells(from, to, placed));
    }
    Ok(b)
}

pub struct MovementExecutor;

impl MovementExecutor {
    pub fn new() -> (r: MovementExecutor) {
        MovementExecutor
    }

    /// Plays `from` to `to` for the side to move, promoting to `promote` where a pawn
    /// reaches its last rank; the board given is left as it is.
    pub fn execute(&self, board: &Board, from: Position, to: Position, promote: Option<Piece>) -> (r:
        Result<Board, ChessError>)
        requires
            board.wf(),
            board@.has_king(board@.current),
            from.wf(),
            to.wf(),
        ensures
            match played(board@, from, to, promote) {
                Ok(v) => r matches Ok(b) && b.wf() && b@ == v,
                Err(e) => r == Err::<Board, ChessError>(e),
            },
    {
        if !is_allowed(board, from, to) {
            return Err(ChessError::MoveNotAllowed { from, to });
        }
        perform_move(board, from, to, false, promote)
    }
}

} // verus!
