//! In-memory stores of games and players.
use vstd::prelude::*;
use std::collections::HashMap;
use crate::game::{Game, Player};

verus! {

/// The games, by identifier.
pub struct InMemoryGameRepository {
    pub games: HashMap<String, Game>,
}

impl InMemoryGameRepository {
    pub fn new() -> (r: InMemoryGameRepository)
        ensures
            r.games@.len() == 0,
    {
        InMemoryGameRepository { games: HashMap::new() }
    }
}

/// The players, by identifier and by user name.
pub struct InMemoryPlayerRepository {
    pub players_by_id: HashMap<String, Player>,
    pub players_by_user_name: HashMap<String, Player>,
}

impl InMemoryPlayerRepository {
    pub fn new() -> (r: InMemoryPlayerRepository)
        ensures
            r.players_by_id@.len() == 0,
            r.players_by_user_name@.len() == 0,
    {
        InMemoryPlayerRepository {
            players_by_id: HashMap::new(),
            players_by_user_name: HashMap::new(),
        }
    }
}

} // verus!
