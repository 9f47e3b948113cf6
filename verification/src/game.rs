//! One game: the two players, the board, the cached game state, and the
//! turn-sequencing rules that interleave a human move with a computer move.

use vstd::prelude::*;
use crate::board::{
    Board, Piece, empty_board, full, idx, in_range, line_cell, line_won, other_piece,
    single_winner, wins, lemma_place_keeps_single_winner,
};

verus! {

/// A participant: a display name and the symbol it plays.
#[derive(Debug)]
pub struct Player {
    pub name: String,
    pub piece: Piece,
}

impl Player {
    /// A fresh player value with the same name and symbol.
    pub fn duplicate(&self) -> (p: Player)
        ensures
            p == *self,
    {
        Player { name: self.name.clone(), piece: self.piece }
    }
}

/// The classification of a board: still playable, drawn, or won by one symbol.
#[derive(Clone, Copy, PartialEq, Eq, Structural, Debug)]
pub enum GameState {
    Ongoing,
    Draw,
    Won(Piece),
}

/// Why a requested move was refused.
#[derive(Clone, Copy, PartialEq, Eq, Structural, Debug)]
pub enum MoveError {
    /// The target cell is out of range or already occupied, or the game is
    /// over: no further moves are accepted once a terminal state is reached.
    IllegalMove,
    /// No game with the given identifier exists.
    UnknownGame,
    /// A computer move was requested on a full board.
    NoLegalMove,
}

/// The classification a board deserves: a completed line means a win no
/// matter how full the board is, a full board without one is a draw, and
/// anything else is still ongoing.
pub open spec fn spec_state(b: Seq<Option<Piece>>) -> GameState {
    if wins(b, Piece::X) {
        GameState::Won(Piece::X)
    } else if wins(b, Piece::O) {
        GameState::Won(Piece::O)
    } else if full(b) {
        GameState::Draw
    } else {
        GameState::Ongoing
    }
}

/// The cached state agrees with the board it was computed from.
pub open spec fn state_consistent(s: GameState, b: Seq<Option<Piece>>) -> bool {
    match s {
        GameState::Ongoing => !wins(b, Piece::X) && !wins(b, Piece::O) && !full(b),
        GameState::Draw => !wins(b, Piece::X) && !wins(b, Piece::O) && full(b),
        GameState::Won(p) => wins(b, p),
    }
}

/// Law: a board with a completed line is classified as won, never as a draw,
/// however full it is.
pub proof fn lemma_win_never_draw(b: Seq<Option<Piece>>, p: Piece)
    requires
        wins(b, p),
    ensures
        spec_state(b) is Won,
        !(spec_state(b) is Draw),
{
}

/// Every cell of a line stays within the nine cells.
pub proof fn lemma_line_cell_bounds(l: int, k: int)
    requires
        0 <= l < 8,
        0 <= k < 3,
    ensures
        0 <= line_cell(l, k) < 9,
{
}

/// An empty board has no completed line and free cells.
proof fn lemma_empty_board_open()
    ensures
        !wins(empty_board(), Piece::X),
        !wins(empty_board(), Piece::O),
        !full(empty_board()),
{
    assert(empty_board()[0] is None);
    assert forall|l: int| 0 <= l < 8 implies !line_won(empty_board(), l, Piece::X)
        && !line_won(empty_board(), l, Piece::O) by {
        lemma_line_cell_bounds(l, 0);
        assert(empty_board()[line_cell(l, 0)] is None);
    }
}

/// A board with a single occupied cell has no completed line and free cells.
proof fn lemma_one_piece_no_win(k: int, p: Piece)
    requires
        0 <= k < 9,
    ensures
        !wins(empty_board().update(k, Some(p)), Piece::X),
        !wins(empty_board().update(k, Some(p)), Piece::O),
        !full(empty_board().update(k, Some(p))),
{
    let b2 = empty_board().update(k, Some(p));
    assert forall|l: int| 0 <= l < 8 implies !line_won(b2, l, Piece::X)
        && !line_won(b2, l, Piece::O) by {
        lemma_line_cell_bounds(l, 0);
        lemma_line_cell_bounds(l, 1);
        assert(line_cell(l, 0) != line_cell(l, 1));
        if line_cell(l, 0) != k {
            assert(b2[line_cell(l, 0)] is None);
        } else {
            assert(b2[line_cell(l, 1)] is None);
        }
    }
    if k == 0 {
        assert(b2[1] is None);
    } else {
        assert(b2[0] is None);
    }
}

/// Relies on rand::random_range over `0..n`: a uniformly drawn index strictly
/// below `n`; with `n > 0` the range is nonempty, so the call cannot panic.
#[verifier::external_body]
fn random_index(n: usize) -> (i: usize)
    requires
        n > 0,
    ensures
        i < n,
{
    rand::random_range(0..n)
}

/// Relies on uuid::Uuid::new_v4: a freshly drawn random identifier, carried
/// as its 128-bit value. Nothing is promised of the outcome.
#[verifier::external_body]
fn fresh_game_id() -> u128 {
    uuid::Uuid::new_v4().as_u128()
}

/// A move by the human at (row, col) is accepted exactly when the game is
/// still ongoing and the cell exists and is empty.
pub open spec fn human_move_legal(g: Game, row: int, col: int) -> bool {
    &&& g.state is Ongoing
    &&& in_range(row, col)
    &&& g.board@[idx(row, col)] is None
}

/// The board after the human piece lands on the requested cell.
pub open spec fn after_human_board(g: Game, row: int, col: int) -> Seq<Option<Piece>> {
    g.board@.update(idx(row, col), Some(g.human_player.piece))
}

/// What one accepted move call does: the human piece lands on the requested
/// cell; if the game is then still ongoing, the computer piece lands on some
/// cell that was still empty; the recorded state classifies the final board.
pub open spec fn move_outcome(pre: Game, post: Game, row: int, col: int) -> bool {
    let b1 = after_human_board(pre, row, col);
    &&& post.same_identity(pre)
    &&& if spec_state(b1) is Ongoing {
        exists|r: int, c: int|
            {
                &&& in_range(r, c)
                &&& b1[#[trigger] idx(r, c)] is None
                &&& post.board@ == b1.update(idx(r, c), Some(pre.computer_player.piece))
                &&& post.state == spec_state(post.board@)
            }
    } else {
        post.board@ == b1 && post.state == spec_state(b1)
    }
}

/// One game: its identity, the two players, the board, and the state cached
/// by the last recomputation.
pub struct Game {
    pub id: u128,
    pub human_player: Player,
    pub computer_player: Player,
    pub state: GameState,
    pub board: Board,
}

impl Game {
    /// The board has its nine cells and the two players hold opposite symbols.
    pub open spec fn wf(self) -> bool {
        &&& self.board.wf()
        &&& self.human_player.piece == other_piece(self.computer_player.piece)
    }

    /// Everything the game rules maintain: well-formedness, a cached state
    /// that agrees with the board, and at most one symbol with a completed
    /// line.
    pub open spec fn inv(self) -> bool {
        &&& self.wf()
        &&& state_consistent(self.state, self.board@)
        &&& single_winner(self.board@)
    }

    /// Identity and players are never touched by a move.
    pub open spec fn same_identity(self, o: Game) -> bool {
        &&& self.id == o.id
        &&& self.human_player == o.human_player
        &&& self.computer_player == o.computer_player
    }

    /// A fresh game: the given players, an empty board, state ongoing, and a
    /// newly drawn identifier.
    pub fn new(human_player: Player, computer_player: Player) -> (game: Game)
        requires
            human_player.piece != computer_player.piece,
        ensures
            game.inv(),
            game.human_player == human_player,
            game.computer_player == computer_player,
            game.board@ == empty_board(),
            game.state is Ongoing,
    {
        proof {
            lemma_empty_board_open();
        }
        Game {
            id: fresh_game_id(),
            human_player,
            computer_player,
            state: GameState::Ongoing,
            board: Board::new(),
        }
    }

    /// Places `ai_player`'s piece on one empty cell, drawn at random from the
    /// empty positions; refuses only a full board. The cached state is left
    /// untouched: callers recompute it afterwards.
    pub fn make_ai_move(&mut self, ai_player: &Player) -> (res: Result<(), MoveError>)
        requires
            old(self).wf(),
        ensures
            final(self).wf(),
            final(self).same_identity(*old(self)),
            final(self).state == old(self).state,
            match res {
                Ok(()) => !full(old(self).board@) && exists|r: int, c: int|
                    {
                        &&& in_range(r, c)
                        &&& old(self).board@[#[trigger] idx(r, c)] is None
                        &&& final(self).board@ == old(self).board@.update(
                            idx(r, c),
                            Some(ai_player.piece),
                        )
                    },
                Err(e) => e == MoveError::NoLegalMove && full(old(self).board@)
                    && *final(self) == *old(self),
            },
    {
        let empty_positions = self.board.get_empty_positions();
        if empty_positions.len() == 0 {
            return Err(MoveError::NoLegalMove);
        }
        let i = random_index(empty_positions.len());
        let (r, c) = empty_positions[i];
        self.board.set(r, c, ai_player.piece);
        proof {
            assert(in_range(r as int, c as int) && old(self).board@[idx(r as int, c as int)] is None
                && final(self).board@ == old(self).board@.update(
                idx(r as int, c as int),
                Some(ai_player.piece),
            ));
        }
        Ok(())
    }

    /// Recomputes the cached state from the board: a completed line means a
    /// win regardless of remaining empty cells, a full board without one is a
    /// draw, anything else stays ongoing.
    pub fn update_game_state(&mut self)
        requires
            old(self).wf(),
        ensures
            final(self).wf(),
            final(self).same_identity(*old(self)),
            final(self).board@ == old(self).board@,
            state_consistent(final(self).state, final(self).board@),
            single_winner(old(self).board@) ==> final(self).state == spec_state(old(self).board@),
    {
        if let Some(piece) = self.board.get_winning_piece() {
            self.state = GameState::Won(piece);
            return;
        }
        if self.board.get_empty_positions().len() == 0 {
            self.state = GameState::Draw;
            return;
        }
        self.state = GameState::Ongoing;
    }

    /// The last computed state; it is refreshed only by moves.
    pub fn current_state(&self) -> (s: GameState)
        ensures
            s == self.state,
    {
        self.state
    }

    /// One round-trip of play. A move onto a missing or occupied cell, or in
    /// a game already over, is refused as illegal and changes nothing. An
    /// accepted move places the human piece, recomputes the state, and — only
    /// if the game is still ongoing — lets the computer answer with one move
    /// and recomputes the state again.
    pub fn apply_human_move(&mut self, row: usize, col: usize) -> (res: Result<(), MoveError>)
        requires
            old(self).inv(),
        ensures
            final(self).inv(),
            match res {
                Ok(()) => human_move_legal(*old(self), row as int, col as int) && move_outcome(
                    *old(self),
                    *final(self),
                    row as int,
                    col as int,
                ),
                Err(e) => e == MoveError::IllegalMove && !human_move_legal(
                    *old(self),
                    row as int,
                    col as int,
                ) && *final(self) == *old(self),
            },
    {
        match self.state {
            GameState::Ongoing => {},
            _ => {
                return Err(MoveError::IllegalMove);
            },
        }
        if row >= 3 || col >= 3 {
            return Err(MoveError::IllegalMove);
        }
        // Legality is checked by membership in the empty-position list.
        let empty_positions = self.board.get_empty_positions();
        let mut k: usize = 0;
        let mut found = false;
        while k < empty_positions.len()
            invariant
                k <= empty_positions@.len(),
                found <==> exists|j: int| 0 <= j < k && empty_positions@[j] == (row, col),
            decreases empty_positions@.len() - k,
        {
            let (er, ec) = empty_positions[k];
            if er == row && ec == col {
                found = true;
                proof {
                    assert(empty_positions@[k as int] == (row, col));
                }
            }
            k = k + 1;
        }
        if !found {
            proof {
                assert(in_range(row as int, col as int));
                if self.board@[idx(row as int, col as int)] is None {
                    assert(empty_positions@.contains((row, col)));
                    let j = choose|j: int| 0 <= j < empty_positions@.len()
                        && empty_positions@[j] == (row, col);
                    assert(false);
                }
            }
            return Err(MoveError::IllegalMove);
        }
        proof {
            let j = choose|j: int| 0 <= j < k && empty_positions@[j] == (row, col);
            assert(self.board@[idx(empty_positions@[j].0 as int, empty_positions@[j].1 as int)]
                is None);
        }
        let human_piece = self.human_player.piece;
        let ghost b0 = self.board@;
        self.board.set(row, col, human_piece);
        let ghost b1 = self.board@;
        proof {
            lemma_place_keeps_single_winner(b0, row as int, col as int, human_piece);
        }
        self.update_game_state();
        match self.state {
            GameState::Ongoing => {},
            _ => {
                return Ok(());
            },
        }
        let mover = self.computer_player.duplicate();
        let res2 = self.make_ai_move(&mover);
        proof {
            assert(res2 is Ok);
            let (r2, c2) = choose|r2: int, c2: int|
                {
                    &&& in_range(r2, c2)
                    &&& b1[#[trigger] idx(r2, c2)] is None
                    &&& self.board@ == b1.update(idx(r2, c2), Some(mover.piece))
                };
            lemma_place_keeps_single_winner(b1, r2, c2, mover.piece);
        }
        self.update_game_state();
        Ok(())
    }
}

/// Starts a game for the given human player: the computer receives the
/// opposite symbol and, since X moves first, makes its opening move right
/// away whenever that symbol is X.
pub fn create_game(human_player: Player) -> (game: Game)
    ensures
        game.inv(),
        game.human_player == human_player,
        game.computer_player.piece == other_piece(human_player.piece),
        game.computer_player.name@ == "Computer"@,
        game.state is Ongoing,
        match human_player.piece {
            Piece::X => game.board@ == empty_board(),
            Piece::O => exists|r: int, c: int| in_range(r, c) && game.board@
                == empty_board().update(#[trigger] idx(r, c), Some(Piece::X)),
        },
{
    let computer_piece = match human_player.piece {
        Piece::O => Piece::X,
        Piece::X => Piece::O,
    };
    let computer_player = Player { name: "Computer".to_owned(), piece: computer_piece };
    let make_first_move = match computer_piece {
        Piece::X => true,
        Piece::O => false,
    };
    let mut game = Game::new(human_player, computer_player);
    if make_first_move {
        let mover = game.computer_player.duplicate();
        proof {
            lemma_empty_board_open();
        }
        let _ = game.make_ai_move(&mover);
        proof {
            let (r2, c2) = choose|r2: int, c2: int|
                {
                    &&& in_range(r2, c2)
                    &&& empty_board()[#[trigger] idx(r2, c2)] is None
                    &&& game.board@ == empty_board().update(idx(r2, c2), Some(mover.piece))
                };
            lemma_one_piece_no_win(idx(r2, c2), mover.piece);
        }
    }
    game
}

} // verus!
