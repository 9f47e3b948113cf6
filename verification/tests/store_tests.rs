use tictactoe::board::Piece;
use tictactoe::game::{create_game, GameState, MoveError, Player};
use tictactoe::store::APIState;

fn human(piece: Piece) -> Player {
    Player { name: String::from("Ada"), piece }
}

#[test]
fn fresh_store_is_empty() {
    let store = APIState::new();
    assert_eq!(store.num_games(), 0);
    assert!(store.get_game(7).is_none());
}

#[test]
fn stored_games_are_found_by_id() {
    let mut store = APIState::new();
    let game = create_game(human(Piece::X));
    let id = game.id;
    store.add_game(game);
    assert_eq!(store.num_games(), 1);
    let found = store.get_game(id).expect("the game was just stored");
    assert_eq!(found.id, id);
    assert_eq!(found.current_state(), GameState::Ongoing);
}

#[test]
fn move_on_unknown_game_changes_nothing() {
    let mut store = APIState::new();
    let game = create_game(human(Piece::X));
    let id = game.id;
    store.add_game(game);
    let unknown = id.wrapping_add(1);
    let res = store.make_move(unknown, 1, 1);
    assert_eq!(res, Err(MoveError::UnknownGame));
    assert_eq!(store.num_games(), 1);
    assert!(store.get_game(unknown).is_none());
    let untouched = store.get_game(id).expect("the stored game stays");
    assert_eq!(untouched.current_state(), GameState::Ongoing);
    assert_eq!(untouched.board.get_empty_positions().len(), 9);
}

#[test]
fn move_through_the_store_advances_the_game() {
    let mut store = APIState::new();
    let game = create_game(human(Piece::X));
    let id = game.id;
    store.add_game(game);
    let res = store.make_move(id, 0, 2);
    assert_eq!(res, Ok(()));
    let advanced = store.get_game(id).expect("the game is still stored");
    assert_eq!(advanced.board.cell_at(0, 2), Some(Piece::X));
    assert_eq!(advanced.current_state(), GameState::Ongoing);
    assert_eq!(advanced.board.get_empty_positions().len(), 7);
}

#[test]
fn illegal_move_through_the_store_changes_nothing() {
    let mut store = APIState::new();
    let game = create_game(human(Piece::X));
    let id = game.id;
    store.add_game(game);
    assert_eq!(store.make_move(id, 0, 2), Ok(()));
    let before = store.get_game(id).expect("stored").board.get_empty_positions();
    let res = store.make_move(id, 0, 2);
    assert_eq!(res, Err(MoveError::IllegalMove));
    let after = store.get_game(id).expect("stored").board.get_empty_positions();
    assert_eq!(after, before);
}
