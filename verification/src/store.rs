//! The keyed collection of live games, addressed by an opaque identifier,
//! and the move entry point that looks a game up and advances it.

use vstd::prelude::*;
use std::collections::HashMap;
use crate::game::{Game, MoveError, human_move_legal, move_outcome};

verus! {

broadcast use vstd::std_specs::hash::group_hash_axioms;

/// A short human-readable note sent back to a caller.
pub struct Message {
    pub message: String,
}

/// All live games, keyed by their identifier. Games live here for the
/// lifetime of the process; nothing evicts them.
pub struct APIState {
    games: HashMap<u128, Game>,
}

impl View for APIState {
    type V = Map<u128, Game>;

    closed spec fn view(&self) -> Map<u128, Game> {
        self.games@
    }
}

impl APIState {
    /// Every stored game satisfies the game rules' invariant.
    pub open spec fn wf(self) -> bool {
        forall|id: u128| #[trigger] self@.contains_key(id) ==> self@[id].inv()
    }

    /// An empty store.
    pub fn new() -> (s: Self)
        ensures
            s@ == Map::<u128, Game>::empty(),
            s.wf(),
    {
        APIState { games: HashMap::new() }
    }

    /// Files a game under its identifier. A game already stored under the
    /// same identifier is replaced.
    pub fn add_game(&mut self, game: Game)
        requires
            old(self).wf(),
            game.inv(),
        ensures
            final(self).wf(),
            final(self)@ == old(self)@.insert(game.id, game),
    {
        let id = game.id;
        self.games.insert(id, game);
        proof {
            assert forall|id2: u128| #[trigger] self@.contains_key(id2) implies self@[id2].inv() by {
                if id2 != id {
                    assert(old(self)@.contains_key(id2));
                }
            }
        }
    }

    /// The game stored under `id`, if any.
    pub fn get_game(&self, id: u128) -> (res: Option<&Game>)
        ensures
            match res {
                Some(g) => self@.contains_key(id) && *g == self@[id],
                None => !self@.contains_key(id),
            },
    {
        self.games.get(&id)
    }

    /// How many games are stored.
    pub fn num_games(&self) -> (n: usize)
        ensures
            n == self@.len(),
    {
        self.games.len()
    }

    /// Advances the game stored under `id` by one round-trip of play: the
    /// human move at (row, col) and, if the game stays ongoing, one computer
    /// answer. An unknown identifier or a refused move changes nothing
    /// anywhere in the store.
    pub fn make_move(&mut self, id: u128, row: usize, col: usize) -> (res: Result<(), MoveError>)
        requires
            old(self).wf(),
        ensures
            final(self).wf(),
            match res {
                Ok(()) => old(self)@.contains_key(id) && human_move_legal(
                    old(self)@[id],
                    row as int,
                    col as int,
                ) && exists|g: Game|
                    move_outcome(old(self)@[id], g, row as int, col as int) && final(self)@
                        == old(self)@.insert(id, g),
                Err(MoveError::UnknownGame) => !old(self)@.contains_key(id) && final(self)@
                    == old(self)@,
                Err(MoveError::IllegalMove) => old(self)@.contains_key(id) && !human_move_legal(
                    old(self)@[id],
                    row as int,
                    col as int,
                ) && final(self)@ == old(self)@,
                Err(MoveError::NoLegalMove) => false,
            },
    {
        match self.games.remove(&id) {
            None => {
                proof {
                    assert(self@ =~= old(self)@);
                }
                Err(MoveError::UnknownGame)
            },
            Some(mut game) => {
                proof {
                    assert(game == old(self)@[id]);
                }
                let r = game.apply_human_move(row, col);
                let ghost moved = game;
                self.games.insert(id, game);
                proof {
                    assert(self@ =~= old(self)@.insert(id, moved));
                    if r is Err {
                        assert(self@ =~= old(self)@);
                    }
                    assert forall|id2: u128| #[trigger] self@.contains_key(id2)
                        implies self@[id2].inv() by {
                        if id2 != id {
                            assert(old(self)@.contains_key(id2));
                        }
                    }
                }
                r
            },
        }
    }
}

} // verus!
