//! What the service around the engine asks of it: starting a game and playing a move
//! given as text.
use vstd::prelude::*;
use crate::allowed_movement::{
    AllPiecesAllowedMoveCalculator, is_checkmate, is_stalemate, names_legal_moves, terminal,
};
use crate::board::{BoardView, initial_view};
use crate::check_verifier::{CheckVerifier, in_check};
use crate::game::{Game, GameStatus};
use crate::model::{ChessError, Color, Piece, Position, parse_position, piece_named, to_piece};
use crate::movement::{MovementExecutor, played};

verus! {

pub struct CreateGameCmd {
    pub white_player_id: String,
    pub black_player_id: String,
}

impl CreateGameCmd {
    fn new(white_player_id: String, black_player_id: String) -> (r: CreateGameCmd)
        ensures
            r.white_player_id == white_player_id,
            r.black_player_id == black_player_id,
    {
        CreateGameCmd { white_player_id, black_player_id }
    }

    pub fn copy(&self) -> (r: CreateGameCmd)
        ensures
            r.white_player_id == self.white_player_id,
            r.black_player_id == self.black_player_id,
    {
        CreateGameCmd::new(self.white_player_id.clone(), self.black_player_id.clone())
    }
}

pub struct MoveCmd {
    pub id: String,
    pub from: String,
    pub to: String,
    pub promote: Option<String>,
}

impl MoveCmd {
    pub fn new(id: String, from: String, to: String, promote: Option<String>) -> (r: MoveCmd)
        ensures
            r.id == id,
            r.from == from,
            r.to == to,
            r.promote == promote,
    {
        MoveCmd { id, from, to, promote }
    }

    pub fn copy(&self) -> (r: MoveCmd)
        ensures
            r.id == self.id,
            r.from == self.from,
            r.to == self.to,
            r.promote == self.promote,
    {
        let promote = match &self.promote {
            Some(p) => Some(p.clone()),
            None => None,
        };
        MoveCmd::new(self.id.clone(), self.from.clone(), self.to.clone(), promote)
    }
}

pub struct CreatePlayerCmd {
    pub user_name: String,
}

impl CreatePlayerCmd {
    pub fn copy(&self) -> (r: CreatePlayerCmd)
        ensures
            r.user_name == self.user_name,
    {
        CreatePlayerCmd { user_name: self.user_name.clone() }
    }
}

/// A new game with the given identifier between the two players, with the legal moves of the starting position
/// listed.
pub fn start_game(id: String, white_player_id: String, black_player_id: String) -> (r: Game)
    ensures
        r.id == id,
        r.board@ == initial_view(),
        r.board.wf(),
        r.status == GameStatus::InProgress,
        !r.is_check,
        !r.is_check_mate_or_stale_mate,
        r.winner_id.is_none(),
        r.white_player_id == white_player_id,
        r.black_player_id == black_player_id,
        names_legal_moves(initial_view(), r.allowed_positions@),
{
    let mut game = Game::new(id, white_player_id, black_player_id);
    proof {
        lemma_initial_kings();
    }
    let allowed = AllPiecesAllowedMoveCalculator.get_allowed_positions(&game.board);
    game.set_allowed_positions(allowed);
    game
}

/// The starting position holds both kings.
proof fn lemma_initial_kings()
    ensures
        initial_view().has_king(Color::White),
        initial_view().has_king(Color::Black),
{
    let e1 = Position { row: 1, column: 'e' };
    let e8 = Position { row: 8, column: 'e' };
    assert(initial_view().at(e1) == Some(Piece::King(Color::White)));
    assert(initial_view().at(e8) == Some(Piece::King(Color::Black)));
}

/// The squares and the promotion piece that a move command names, the piece in the
/// color of the side to move.
pub open spec fn move_request(v: BoardView, from: Seq<char>, to: Seq<char>, promote: Option<
    Seq<char>,
>) -> Result<(Position, Position, Option<Piece>), ChessError> {
    match parse_position(from) {
        Err(e) => Err(e),
        Ok(f) => match parse_position(to) {
            Err(e) => Err(e),
            Ok(t) => match promote {
                None => Ok((f, t, None)),
                Some(name) => match piece_named(name, v.current) {
                    Err(e) => Err(e),
                    Ok(p) => Ok((f, t, Some(p))),
                },
            },
        },
    }
}

/// What the command's promotion text is, as a sequence of characters.
pub open spec fn promote_text(promote: Option<String>) -> Option<Seq<char>> {
    match promote {
        Some(s) => Some(s@),
        None => None,
    }
}

/// Plays the move that `move_cmd` names in `game`: on success the game holds the new
/// board, its check and no-legal-move flags, its status and the legal moves of the new
/// position; on failure the game is left as it was.
pub fn apply_move(game: &mut Game, move_cmd: &MoveCmd) -> (r: Result<(), ChessError>)
    requires
        old(game).board.wf(),
        old(game).board@.has_king(old(game).board@.current),
    ensures
        match move_request(
            old(game).board@,
            move_cmd.from@,
            move_cmd.to@,
            promote_text(move_cmd.promote),
        ) {
            Err(e) => r == Err::<(), ChessError>(e) && *final(game) == *old(game),
            Ok((from, to, promote)) => match played(old(game).board@, from, to, promote) {
                Err(e) => r == Err::<(), ChessError>(e) && *final(game) == *old(game),
                Ok(v) => if !v.has_king(Color::White) {
                    r == Err::<(), ChessError>(ChessError::MissingKing(Color::White)) && *final(game)
                        == *old(game)
                } else if !v.has_king(Color::Black) {
                    r == Err::<(), ChessError>(ChessError::MissingKing(Color::Black)) && *final(game)
                        == *old(game)
                } else {
                    &&& r == Ok::<(), ChessError>(())
                    &&& final(game).board.wf()
                    &&& final(game).board@ == v
                    &&& final(game).is_check == in_check(v)
                    &&& final(game).is_check_mate_or_stale_mate == terminal(v)
                    &&& final(game).status == (if is_checkmate(v) {
                        GameStatus::CheckMate
                    } else if is_stalemate(v) {
                        GameStatus::StaleMate
                    } else {
                        old(game).status
                    })
                    &&& final(game).winner_id == (if is_checkmate(v) {
                        if v.current == Color::White {
                            Some(old(game).black_player_id)
                        } else {
                            Some(old(game).white_player_id)
                        }
                    } else {
                        old(game).winner_id
                    })
                    &&& names_legal_moves(v, final(game).allowed_positions@)
                    &&& final(game).id == old(game).id
                    &&& final(game).white_player_id == old(game).white_player_id
                    &&& final(game).black_player_id == old(game).black_player_id
                },
            },
        },
{
    let from = match Position::from(move_cmd.from.clone()) {
        Ok(p) => p,
        Err(e) => return Err(e),
    };
    let to = match Position::from(move_cmd.to.clone()) {
        Ok(p) => p,
        Err(e) => return Err(e),
    };
    let promote = match &move_cmd.promote {
        Some(name) => match to_piece(name.clone(), game.board.get_current()) {
            Ok(p) => Some(p),
            Err(e) => return Err(e),
        },
        None => None,
    };
    proof {
        lemma_parsed_square_wf(move_cmd.from@);
        lemma_parsed_square_wf(move_cmd.to@);
    }
    let board = match MovementExecutor.execute(&game.board, from, to, promote) {
        Ok(b) => b,
        Err(e) => return Err(e),
    };
    if !board.has_king(Color::White) {
        return Err(ChessError::MissingKing(Color::White));
    }
    if !board.has_king(Color::Black) {
        return Err(ChessError::MissingKing(Color::Black));
    }
    let is_check = CheckVerifier.is_check(&board);
    let calculator = AllPiecesAllowedMoveCalculator;
    let is_check_mate_or_stale_mate = calculator.is_check_mate_or_stale_mate(&board);
    let allowed = calculator.get_allowed_positions(&board);
    game.board = board;
    game.update_status(is_check, is_check_mate_or_stale_mate);
    game.set_allowed_positions(allowed);
    Ok(())
}

proof fn lemma_parsed_square_wf(s: Seq<char>)
    ensures
        parse_position(s) matches Ok(p) ==> p.wf(),
{
}

} // verus!
