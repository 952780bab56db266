//! A game between two players: its board, its status and the legal moves shown to the
//! players.
use vstd::prelude::*;
use crate::board::{Board, initial_view};
use crate::model::{Color, Position};

verus! {

#[derive(Debug, Clone)]
pub struct Player {
    pub id: String,
    pub user_name: String,
}

impl Player {
    /// A player with the given identifier.
    pub fn new(id: String, user_name: String) -> (r: Player)
        ensures
            r.id == id,
            r.user_name == user_name,
    {
        Player { id, user_name }
    }
}

#[derive(Debug, Clone, Copy, PartialEq, Eq, Structural)]
pub enum GameStatus {
    Draw,
    Resignation,
    CheckMate,
    StaleMate,
    Timeout,
    InProgress,
}

#[derive(Debug, Clone)]
pub struct Game {
    pub id: String,
    pub board: Board,
    pub is_check: bool,
    pub is_check_mate_or_stale_mate: bool,
    pub white_player_id: String,
    pub black_player_id: String,
    pub status: GameStatus,
    pub winner_id: Option<String>,
    pub allowed_positions: Vec<(String, Vec<Position>)>,
}

impl Game {
    /// A game with the given identifier in the starting position, in progress, with no legal moves listed yet.
    pub fn new(id: String, white_player_id: String, black_player_id: String) -> (r: Game)
        ensures
            r.id == id,
            r.board@ == initial_view(),
            r.board.wf(),
            !r.is_check,
            !r.is_check_mate_or_stale_mate,
            r.allowed_positions@.len() == 0,
            r.status == GameStatus::InProgress,
            r.white_player_id == white_player_id,
            r.black_player_id == black_player_id,
            r.winner_id.is_none(),
    {
        Game {
            id,
            board: Board::new(),
            is_check: false,
            is_check_mate_or_stale_mate: false,
            allowed_positions: Vec::new(),
            status: GameStatus::InProgress,
            white_player_id,
            black_player_id,
            winner_id: None,
        }
    }

    pub fn set_allowed_positions(&mut self, allowed_positions: Vec<(String, Vec<Position>)>)
        ensures
            final(self).allowed_positions == allowed_positions,
            final(self).id == old(self).id,
            final(self).board == old(self).board,
            final(self).is_check == old(self).is_check,
            final(self).is_check_mate_or_stale_mate == old(self).is_check_mate_or_stale_mate,
            final(self).white_player_id == old(self).white_player_id,
            final(self).black_player_id == old(self).black_player_id,
            final(self).status == old(self).status,
            final(self).winner_id == old(self).winner_id,
    {
        self.allowed_positions = allowed_positions;
    }

    /// Records the check and no-legal-move flags of the position just reached: with both,
    /// checkmate, won by the side that has just moved; with only the second, stalemate.
    pub fn update_status(&mut self, is_check: bool, is_check_mate_or_stale_mate: bool)
        ensures
            final(self).is_check == is_check,
            final(self).is_check_mate_or_stale_mate == is_check_mate_or_stale_mate,
            final(self).status == (if is_check && is_check_mate_or_stale_mate {
                GameStatus::CheckMate
            } else if is_check_mate_or_stale_mate {
                GameStatus::StaleMate
            } else {
                old(self).status
            }),
            final(self).winner_id == (if is_check && is_check_mate_or_stale_mate {
                if old(self).board@.current == Color::White {
                    Some(old(self).black_player_id)
                } else {
                    Some(old(self).white_player_id)
                }
            } else {
                old(self).winner_id
            }),
            final(self).id == old(self).id,
            final(self).board == old(self).board,
            final(self).white_player_id == old(self).white_player_id,
            final(self).black_player_id == old(self).black_player_id,
            final(self).allowed_positions == old(self).allowed_positions,
    {
        self.is_check = is_check;
        self.is_check_mate_or_stale_mate = is_check_mate_or_stale_mate;
        if is_check && is_check_mate_or_stale_mate {
            self.status = GameStatus::CheckMate;
            if self.board.get_current() == Color::White {
                self.winner_id = Some(self.black_player_id.clone());
            } else {
                self.winner_id = Some(self.white_player_id.clone());
            }
        } else if is_check_mate_or_stale_mate {
            self.status = GameStatus::StaleMate;
        }
    }
}

} // verus!
